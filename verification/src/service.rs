//! The conversation orchestrator: ownership checks, history assembly, and
//! the turn pipeline that relays increments, accumulates the reply, persists
//! the turn and derives a first-exchange title.
//!
//! The orchestrator is written as decisions over plain values. What only the
//! outside world can do — the HTTP call to the backend, awaiting the next
//! event — happens in the surrounding program, which feeds the resulting
//! increments back in. Every rule along the way is stated and checked here.

use vstd::prelude::*;

use crate::catalog::{find_model, find_provider, Catalog};
use crate::error::AppError;
use crate::model::{
    concat_chunks, lemma_concat_chunks_push, lemma_concat_chunks_step, ChatMessagePayload,
    ChatRole, Message, Provider, Session, StreamItem,
};
use crate::store::{find_session, has_session, lemma_filter_messages_ok, owned_by, Store};
use crate::text::{trim_whitespace, trimmed};

verus! {

/// Creation times never decrease along the sequence: insertion order is
/// creation-time order.
pub open spec fn time_ordered(ms: Seq<Message>) -> bool {
    forall|i: int, j: int|
        0 <= i <= j < ms.len() ==> #[trigger] ms[i].created_at <= #[trigger] ms[j].created_at
}

/// Lists a user's sessions; pure delegation to the store.
pub fn list_sessions(store: &Store, user_id: u64) -> (r: Vec<Session>)
    ensures
        r@ == store.sessions_seq().filter(owned_by(user_id)),
{
    store.list_sessions(user_id)
}

/// Creates a session owned by the user; pure delegation to the store.
pub fn create_session(store: &mut Store, user_id: u64) -> (r: Result<Session, AppError>)
    requires
        old(store).wf(),
    ensures
        final(store).wf(),
        r is Ok <==> old(store).stamp() < u64::MAX,
        r matches Ok(s) ==> ({
            &&& s.user_id == user_id
            &&& s.title is None
            &&& final(store).sessions_seq() == old(store).sessions_seq().push(s)
            &&& final(store).messages_seq() == old(store).messages_seq()
        }),
        r is Err ==> *final(store) == *old(store),
{
    store.create_session(user_id)
}

/// Lists a session's messages for a caller: absent sessions are `NotFound`,
/// sessions of other users are `Forbidden` — existence is never revealed to a
/// non-owner — and for the owner the messages come in creation order.
pub fn list_messages(store: &Store, user_id: u64, session_id: u64) -> (r: Result<
    Vec<Message>,
    AppError,
>)
    requires
        store.wf(),
    ensures
        match find_session(store.sessions_seq(), session_id) {
            None => r matches Err(e) && e is NotFound,
            Some(s) => if s.user_id != user_id {
                r matches Err(e) && e is Forbidden
            } else {
                r matches Ok(v) && v@ == store.session_messages(session_id)
            },
        },
        r matches Ok(v) ==> time_ordered(v@),
{
    let session = match store.get_session(session_id) {
        None => { return Err(AppError::NotFound(String::from_str("session not found"))) },
        Some(s) => s,
    };
    if session.user_id != user_id {
        return Err(AppError::Forbidden(String::from_str("session not accessible")));
    }
    let out = store.list_messages(session_id);
    proof {
        lemma_filter_messages_ok(
            store.messages_seq(),
            crate::store::in_session(session_id),
            store.stamp(),
        );
        let v = out@;
        assert(crate::store::messages_ok(v, store.stamp()));
        assert forall|i: int, j: int|
            0 <= i <= j < v.len() implies #[trigger] v[i].created_at
            <= #[trigger] v[j].created_at by {
            if i < j {
                assert(crate::store::messages_ok(v, store.stamp()));
                assert(0 <= i < j < v.len());
                assert(v[i].id < v[j].id);
                assert(v[i].created_at <= v[j].created_at);
            }
        };
    }
    Ok(out)
}

/// Deletes a caller's session and, cascading, its messages, with the same
/// access rules as listing: `NotFound` for an absent id, `Forbidden` for a
/// non-owner, and `NotFound` again if the row vanished before the delete
/// removed anything.
pub fn delete_session(store: &mut Store, user_id: u64, session_id: u64) -> (r: Result<
    (),
    AppError,
>)
    requires
        old(store).wf(),
    ensures
        final(store).wf(),
        match find_session(old(store).sessions_seq(), session_id) {
            None => r matches Err(e) && e is NotFound && *final(store) == *old(store),
            Some(s) => if s.user_id != user_id {
                r matches Err(e) && e is Forbidden && *final(store) == *old(store)
            } else {
                r is Ok && final(store).sessions_seq() == old(store).sessions_seq().filter(
                    crate::store::other_sessions(session_id),
                ) && final(store).messages_seq() == old(store).messages_seq().filter(
                    crate::store::outside_session(session_id),
                )
            },
        },
{
    let session = match store.get_session(session_id) {
        None => { return Err(AppError::NotFound(String::from_str("session not found"))) },
        Some(s) => s,
    };
    if session.user_id != user_id {
        return Err(AppError::Forbidden(String::from_str("session not accessible")));
    }
    proof {
        crate::store::lemma_find_session(store.sessions_seq(), session_id);
    }
    let removed = store.delete_session(session_id);
    if removed == 0 {
        return Err(AppError::NotFound(String::from_str("session not found")));
    }
    Ok(())
}

/// Whether `prompt` is exactly the session history in creation order, each
/// message as its role and content, followed by the new user message.
pub open spec fn prompt_matches(
    prompt: Seq<ChatMessagePayload>,
    history: Seq<Message>,
    content: Seq<char>,
) -> bool {
    &&& prompt.len() == history.len() + 1
    &&& (forall|i: int|
        0 <= i < history.len() ==> ((#[trigger] prompt[i]).role@ == history[i].role.spec_str()
            && prompt[i].content@ == history[i].content@))
    &&& prompt[history.len() as int].role@ == "user"@
    &&& prompt[history.len() as int].content@ == content
}

/// Everything a turn needs once access is validated: where to call, what to
/// send, and whether this turn should try to derive a title.
pub struct TurnPlan {
    /// The session the turn belongs to.
    pub session_id: u64,
    /// The caller; owns the session and the provider.
    pub user_id: u64,
    /// The new user message.
    pub content: String,
    /// The provider whose endpoint and credential the call uses.
    pub provider: Provider,
    /// The remote model identifier to name in the request.
    pub remote_model_id: String,
    /// The full history plus the new message, in prompt form.
    pub prompt: Vec<ChatMessagePayload>,
    /// Whether the session had no title when the turn began.
    pub needs_title: bool,
}

/// Validates access and assembles a turn: the session must exist and belong
/// to the caller (`NotFound` and `Forbidden` stay distinct, and for an
/// existing session a non-owner always sees `Forbidden`), the model must
/// exist, and its provider must be accessible to the caller; the prompt is
/// the session's history in creation order plus the new user message.
pub fn prepare_send(
    store: &Store,
    catalog: &Catalog,
    user_id: u64,
    session_id: u64,
    content: String,
    provider_model_id: u64,
) -> (r: Result<TurnPlan, AppError>)
    requires
        store.wf(),
    ensures
        match find_session(store.sessions_seq(), session_id) {
            None => r matches Err(e) && e is NotFound,
            Some(s) => if s.user_id != user_id {
                r matches Err(e) && e is Forbidden
            } else {
                match find_model(catalog.models_seq(), provider_model_id) {
                    None => r matches Err(e) && e is NotFound,
                    Some(m) => match find_provider(catalog.providers_seq(), m.provider_id) {
                        None => r matches Err(e) && e is Forbidden,
                        Some(p) => if p.user_id != user_id {
                            r matches Err(e) && e is Forbidden
                        } else {
                            r matches Ok(plan) && ({
                                &&& plan.session_id == session_id
                                &&& plan.user_id == user_id
                                &&& plan.content == content
                                &&& plan.provider == p
                                &&& plan.remote_model_id == m.model_id
                                &&& prompt_matches(
                                    plan.prompt@,
                                    store.session_messages(session_id),
                                    content@,
                                )
                                &&& plan.needs_title == (s.title is None)
                            })
                        },
                    },
                }
            },
        },
{
    let session = match store.get_session(session_id) {
        None => { return Err(AppError::NotFound(String::from_str("session not found"))) },
        Some(s) => s,
    };
    if session.user_id != user_id {
        return Err(AppError::Forbidden(String::from_str("session not accessible")));
    }
    let model = match catalog.get_model(provider_model_id) {
        None => { return Err(AppError::NotFound(String::from_str("model not found"))) },
        Some(m) => m,
    };
    let provider = match catalog.get_provider_for_user(user_id, model.provider_id) {
        None => { return Err(AppError::Forbidden(String::from_str("provider not accessible"))) },
        Some(p) => p,
    };
    let history = store.list_messages(session_id);
    let mut prompt: Vec<ChatMessagePayload> = Vec::new();
    let n = history.len();
    let mut k: usize = 0;
    while k < n
        invariant
            n == history@.len(),
            0 <= k <= n,
            prompt@.len() == k,
            forall|i: int|
                0 <= i < k ==> ((#[trigger] prompt@[i]).role@ == history@[i].role.spec_str()
                    && prompt@[i].content@ == history@[i].content@),
        decreases n - k,
    {
        let m = &history[k];
        prompt.push(ChatMessagePayload {
            role: String::from_str(m.role.as_str()),
            content: m.content.clone(),
        });
        k += 1;
    }
    prompt.push(ChatMessagePayload {
        role: String::from_str(ChatRole::User.as_str()),
        content: content.clone(),
    });
    let needs_title = match &session.title {
        Some(_) => false,
        None => true,
    };
    Ok(TurnPlan {
        session_id,
        user_id,
        content,
        provider,
        remote_model_id: model.model_id,
        prompt,
        needs_title,
    })
}

/// The live tee of one turn: every item is relayed onward in arrival order,
/// and the text of every non-error item is accumulated for storage. The two
/// views never diverge: the accumulator always equals the concatenation of
/// the relayed chunks.
pub struct TurnOutput {
    /// Every item relayed to the caller, in arrival order.
    pub delivered: Vec<StreamItem>,
    /// The full assistant reply gathered so far.
    pub accumulated: String,
}

impl TurnOutput {
    /// The accumulator holds exactly the concatenated chunk text of what was
    /// delivered.
    pub open spec fn wf(&self) -> bool {
        self.accumulated@ == concat_chunks(self.delivered@)
    }

    /// An empty tee.
    pub fn new() -> (r: TurnOutput)
        ensures
            r.wf(),
            r.delivered@ == Seq::<StreamItem>::empty(),
            r.accumulated@ == Seq::<char>::empty(),
    {
        TurnOutput { delivered: Vec::new(), accumulated: String::new() }
    }

    /// Takes one arriving item: relays it (errors included, as inline
    /// signals) and accumulates its text (errors contribute nothing and do
    /// not disturb what was already gathered).
    pub fn absorb(&mut self, item: StreamItem)
        requires
            old(self).wf(),
        ensures
            final(self).wf(),
            final(self).delivered@ == old(self).delivered@.push(item),
            final(self).accumulated@ == old(self).accumulated@ + item.chunk_text(),
    {
        proof {
            lemma_concat_chunks_push(self.delivered@, item);
        }
        match &item {
            StreamItem::Chunk(s) => {
                self.accumulated.append(s.as_str());
            },
            StreamItem::Failure(_) => {
                proof {
                    assert(self.accumulated@ =~= old(self).accumulated@ + item.chunk_text());
                }
            },
        }
        self.delivered.push(item);
    }
}

/// The fixed system instruction of the title-inference call.
pub open spec fn title_instruction() -> Seq<char> {
    "You are a conversation title assistant. Based on the user's message below, generate a short, clear title (max 20 characters). Do not include quotes or periods."@
}

/// The prompt of the title-inference call: the fixed system instruction plus
/// the user's message as the only turn.
pub fn title_prompt(content: &str) -> (r: Vec<ChatMessagePayload>)
    ensures
        r@.len() == 2,
        r@[0].role@ == "system"@,
        r@[0].content@ == title_instruction(),
        r@[1].role@ == "user"@,
        r@[1].content@ == content@,
{
    let mut out: Vec<ChatMessagePayload> = Vec::new();
    out.push(
        ChatMessagePayload {
            role: String::from_str("system"),
            content: String::from_str(
                "You are a conversation title assistant. Based on the user's message below, generate a short, clear title (max 20 characters). Do not include quotes or periods.",
            ),
        },
    );
    out.push(
        ChatMessagePayload { role: String::from_str("user"), content: String::from_str(content) },
    );
    out
}

/// The candidate title a drained increment sequence yields: its non-error
/// text concatenated and trimmed.
pub open spec fn title_from(items: Seq<StreamItem>) -> Seq<char> {
    trimmed(concat_chunks(items))
}

/// Derives a session title from a fully drained increment sequence: error
/// items are ignored, the chunk text is concatenated and trimmed, and an
/// empty outcome yields nothing.
pub fn derive_title(items: &Vec<StreamItem>) -> (r: Option<String>)
    ensures
        r is None <==> title_from(items@).len() == 0,
        r matches Some(t) ==> t@ == title_from(items@) && t@.len() > 0,
{
    let mut acc = String::new();
    let n = items.len();
    let mut k: usize = 0;
    while k < n
        invariant
            n == items@.len(),
            0 <= k <= n,
            acc@ == concat_chunks(items@.subrange(0, k as int)),
        decreases n - k,
    {
        proof {
            lemma_concat_chunks_step(items@, k as int);
        }
        match &items[k] {
            StreamItem::Chunk(s) => {
                acc.append(s.as_str());
            },
            StreamItem::Failure(_) => {
                proof {
                    assert(acc@ =~= concat_chunks(items@.subrange(0, k as int + 1)));
                }
            },
        }
        k += 1;
    }
    proof {
        assert(items@.subrange(0, n as int) =~= items@);
    }
    let t = trim_whitespace(acc.as_str());
    if t.as_str().unicode_len() == 0 {
        None
    } else {
        Some(t)
    }
}

/// What one turn leaves behind: the tee the caller saw, the assistant
/// message if the turn was persisted, and the title if one was set.
pub struct TurnOutcome {
    /// What was relayed and what was accumulated.
    pub output: TurnOutput,
    /// The persisted assistant message, when persistence succeeded.
    pub persisted: Option<Message>,
    /// The title that was set, when the title step set one.
    pub title_set: Option<String>,
}

/// What one call of [`run_turn`] does, relating the store before and after.
///
/// - The caller sees every event, in order, and the accumulated reply is
///   exactly the concatenation of the non-error chunks.
/// - When the reply is non-empty and the session still exists, the turn is
///   persisted as one atomic pair; persistence failure changes nothing and
///   is not an error of the turn.
/// - The title step runs only for a turn that began with no title and whose
///   title call returned a sequence to drain; a non-empty trimmed candidate
///   is set as the title, anything else leaves the sessions untouched.
pub open spec fn run_turn_post(
    pre: Store,
    post: Store,
    session_id: u64,
    content: String,
    needs_title: bool,
    events: Seq<StreamItem>,
    title_events: Option<Vec<StreamItem>>,
    r: TurnOutcome,
) -> bool {
    let acc = concat_chunks(events);
    let appended = acc.len() > 0 && has_session(pre.sessions_seq(), session_id) && pre.stamp()
        < u64::MAX - 1;
    let st2 = pre.stamp() + (if appended {
        2int
    } else {
        0int
    });
    &&& r.output.wf()
    &&& r.output.delivered@ == events
    &&& r.output.accumulated@ == acc
    &&& (!appended ==> (post.messages_seq() == pre.messages_seq() && r.persisted is None))
    &&& (appended ==> ({
        let n = pre.messages_seq().len() as int;
        &&& post.messages_seq().len() == n + 2
        &&& post.messages_seq().subrange(0, n) == pre.messages_seq()
        &&& post.messages_seq()[n] == (Message {
            id: pre.stamp(),
            session_id: session_id,
            role: ChatRole::User,
            content: content,
            created_at: pre.stamp(),
            updated_at: pre.stamp(),
        })
        &&& post.messages_seq()[n + 1].id == pre.stamp() + 1
        &&& post.messages_seq()[n + 1].session_id == session_id
        &&& post.messages_seq()[n + 1].role == ChatRole::Assistant
        &&& post.messages_seq()[n + 1].content@ == acc
        &&& post.messages_seq()[n + 1].created_at == pre.stamp() + 1
        &&& r.persisted == Some(post.messages_seq()[n + 1])
    }))
    &&& ((!needs_title || title_events is None) ==> (post.sessions_seq() == pre.sessions_seq()
        && r.title_set is None))
    &&& (needs_title ==> (match title_events {
        None => true,
        Some(tev) => ({
            let t = title_from(tev@);
            if t.len() > 0 && has_session(pre.sessions_seq(), session_id) && st2 < u64::MAX {
                r.title_set matches Some(ts) && ts@ == t && post.sessions_seq()
                    == crate::store::with_title(pre.sessions_seq(), session_id, ts, st2 as u64)
            } else {
                post.sessions_seq() == pre.sessions_seq() && r.title_set is None
            }
        }),
    }))
}

/// Drives the caller-visible half and the follow-up half of one turn, given
/// the drained increment sequences of the chat call and, when one was made,
/// the title call: relays and accumulates every event, persists the turn if
/// anything was accumulated, and derives a title for a turn that began
/// without one. Persistence and title failures are absorbed, never raised.
pub fn run_turn(
    store: &mut Store,
    session_id: u64,
    content: String,
    needs_title: bool,
    events: Vec<StreamItem>,
    title_events: Option<Vec<StreamItem>>,
) -> (r: TurnOutcome)
    requires
        old(store).wf(),
    ensures
        final(store).wf(),
        run_turn_post(
            *old(store),
            *final(store),
            session_id,
            content,
            needs_title,
            events@,
            title_events,
            r,
        ),
{
    let mut output = TurnOutput::new();
    let n = events.len();
    let mut k: usize = 0;
    while k < n
        invariant
            n == events@.len(),
            0 <= k <= n,
            output.wf(),
            output.delivered@ == events@.subrange(0, k as int),
        decreases n - k,
    {
        output.absorb(events[k].clone());
        proof {
            assert(output.delivered@ =~= events@.subrange(0, k as int + 1));
        }
        k += 1;
    }
    proof {
        assert(events@.subrange(0, n as int) =~= events@);
    }
    let mut persisted: Option<Message> = None;
    if !output.accumulated.as_str().is_empty() {
        match store.append_pair(session_id, content.clone(), output.accumulated.clone()) {
            Ok(am) => {
                persisted = Some(am);
            },
            Err(_) => {},
        }
    }
    let ghost mid = *store;
    let mut title_set: Option<String> = None;
    if needs_title {
        match &title_events {
            Some(tev) => {
                match derive_title(tev) {
                    Some(t) => {
                        match store.set_title(session_id, t.clone()) {
                            Ok(_) => {
                                title_set = Some(t);
                            },
                            Err(_) => {},
                        }
                    },
                    None => {},
                }
            },
            None => {},
        }
    }
    proof {
        let pre = *old(store);
        let acc = concat_chunks(events@);
        let appended = acc.len() > 0 && has_session(pre.sessions_seq(), session_id) && pre.stamp()
            < u64::MAX - 1;
        assert(mid.sessions_seq() == pre.sessions_seq());
        assert(store.messages_seq() == mid.messages_seq());
        assert(mid.stamp() == pre.stamp() + (if appended {
            2int
        } else {
            0int
        }));
        if appended {
            let n = pre.messages_seq().len() as int;
            let um = Message {
                id: pre.stamp(),
                session_id: session_id,
                role: ChatRole::User,
                content: content,
                created_at: pre.stamp(),
                updated_at: pre.stamp(),
            };
            assert(mid.messages_seq().subrange(0, n) =~= pre.messages_seq());
            assert(mid.messages_seq()[n] == um);
        }
    }
    TurnOutcome { output, persisted, title_set }
}

/// The persistence half of the turn contract, stated on its own: the
/// assistant message persisted for a turn carries exactly the concatenation
/// of the non-error increments delivered to the caller, which themselves are
/// exactly the adapter's events in arrival order.
pub proof fn lemma_turn_persists_delivered(
    pre: Store,
    post: Store,
    session_id: u64,
    content: String,
    needs_title: bool,
    events: Seq<StreamItem>,
    title_events: Option<Vec<StreamItem>>,
    r: TurnOutcome,
)
    requires
        run_turn_post(pre, post, session_id, content, needs_title, events, title_events, r),
    ensures
        r.output.delivered@ == events,
        r.persisted matches Some(am) ==> am.content@ == concat_chunks(r.output.delivered@),
{
}

/// The title half of the turn contract, stated on its own: a turn that began
/// on a session that already had a title never touches any session's title.
pub proof fn lemma_title_set_at_most_once(
    pre: Store,
    post: Store,
    session_id: u64,
    content: String,
    events: Seq<StreamItem>,
    title_events: Option<Vec<StreamItem>>,
    r: TurnOutcome,
)
    requires
        run_turn_post(pre, post, session_id, content, false, events, title_events, r),
    ensures
        post.sessions_seq() == pre.sessions_seq(),
        r.title_set is None,
{
}

/// One full send: validation, then the turn, handed the adapter's drained
/// output. The store is untouched on every validation failure; on success
/// the turn runs with the title step enabled exactly when the session had no
/// title when the send began — so a session that already carries a title
/// keeps its sessions row unchanged.
pub fn send_message(
    store: &mut Store,
    catalog: &Catalog,
    user_id: u64,
    session_id: u64,
    content: String,
    provider_model_id: u64,
    events: Vec<StreamItem>,
    title_events: Option<Vec<StreamItem>>,
) -> (r: Result<TurnOutcome, AppError>)
    requires
        old(store).wf(),
    ensures
        final(store).wf(),
        match find_session(old(store).sessions_seq(), session_id) {
            None => r matches Err(e) && e is NotFound && *final(store) == *old(store),
            Some(s) => if s.user_id != user_id {
                r matches Err(e) && e is Forbidden && *final(store) == *old(store)
            } else {
                match find_model(catalog.models_seq(), provider_model_id) {
                    None => r matches Err(e) && e is NotFound && *final(store) == *old(store),
                    Some(m) => match find_provider(catalog.providers_seq(), m.provider_id) {
                        None => r matches Err(e) && e is Forbidden && *final(store) == *old(store),
                        Some(p) => if p.user_id != user_id {
                            r matches Err(e) && e is Forbidden && *final(store) == *old(store)
                        } else {
                            r matches Ok(out) && run_turn_post(
                                *old(store),
                                *final(store),
                                session_id,
                                content,
                                s.title is None,
                                events@,
                                title_events,
                                out,
                            )
                        },
                    },
                }
            },
        },
        (find_session(old(store).sessions_seq(), session_id) matches Some(s) && s.title is Some)
            ==> final(store).sessions_seq() == old(store).sessions_seq(),
{
    let plan = match prepare_send(store, catalog, user_id, session_id, content, provider_model_id) {
        Err(e) => { return Err(e) },
        Ok(plan) => plan,
    };
    let out = run_turn(
        store,
        plan.session_id,
        plan.content,
        plan.needs_title,
        events,
        title_events,
    );
    Ok(out)
}

} // verus!
