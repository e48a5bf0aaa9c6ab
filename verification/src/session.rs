//! The life of one request, as a state machine.
//!
//! A `Session` asks for one thing at a time, its pending `Action`: a decision
//! of the rate limiter, a lookup in the cache, a call of the provider for the
//! next chunk, a store into the cache, or the delivery of the result. Whoever
//! runs the session performs the action and hands the answer back as an
//! `Event`; `step` then gives the next state. The session itself does no
//! input or output and reads no clock.

use vstd::prelude::*;
use crate::chunker::{chunks_of, split_text};
use crate::key::{build_cache_key, cache_key};
use crate::cache::{after_set, lookup};
use crate::outcome::{status_of, Failure, FailureView, ResultView, TranslationResult};
use crate::provider::{
    interpret_reply,
    opt_view,
    provider_request,
    reply_result,
    request_for,
    ProviderReply,
    ProviderRequest,
    ProviderRequestView,
    ReplyView,
};
use crate::request::{effective_source, validate, violation, RequestView, TranslationRequest};
use crate::text::{join_with, joined};

verus! {

/// The number of characters that a chunk sent to the provider holds at most.
pub const MAX_CHUNK_CHARS: usize = 800;

/// What a session asks of whoever runs it.
#[derive(Debug, Clone, PartialEq, Eq)]
pub enum Action {
    /// Ask the rate limiter whether the request is admitted.
    CheckRate,
    /// Look `key` up in the cache.
    Lookup { key: String },
    /// Send this request to the provider.
    CallProvider(ProviderRequest),
    /// Store `text` under `key` in the cache.
    Store { key: String, text: String },
    /// Deliver the result; the session is over.
    Respond(TranslationResult),
}

/// The model of an `Action`.
pub enum ActionView {
    CheckRate,
    Lookup { key: Seq<char> },
    CallProvider(ProviderRequestView),
    Store { key: Seq<char>, text: Seq<char> },
    Respond(ResultView),
}

impl View for Action {
    type V = ActionView;

    open spec fn view(&self) -> ActionView {
        match self {
            Action::CheckRate => ActionView::CheckRate,
            Action::Lookup { key } => ActionView::Lookup { key: key@ },
            Action::CallProvider(request) => ActionView::CallProvider(request@),
            Action::Store { key, text } => ActionView::Store { key: key@, text: text@ },
            Action::Respond(result) => ActionView::Respond(result@),
        }
    }
}

/// The answer to an action.
#[derive(Debug, Clone, PartialEq, Eq)]
pub enum Event {
    /// The rate limiter's decision.
    Admission(bool),
    /// What the cache holds under the key, if anything fresh.
    Lookup(Option<String>),
    /// How the call of the provider ended.
    Reply(ProviderReply),
    /// The text is stored.
    Stored,
}

/// The model of an `Event`.
pub enum EventView {
    Admission(bool),
    Lookup(Option<Seq<char>>),
    Reply(ReplyView),
    Stored,
}

impl View for Event {
    type V = EventView;

    open spec fn view(&self) -> EventView {
        match self {
            Event::Admission(admitted) => EventView::Admission(*admitted),
            Event::Lookup(found) => EventView::Lookup(opt_view(*found)),
            Event::Reply(reply) => EventView::Reply(reply@),
            Event::Stored => EventView::Stored,
        }
    }
}

/// The state of a request.
#[derive(Debug, Clone, PartialEq, Eq)]
pub enum Session {
    /// Waiting for the rate limiter.
    Admission { request: TranslationRequest, max_text_length: usize },
    /// Admitted and valid; waiting for the cache.
    Lookup { request: TranslationRequest, key: String },
    /// Not in the cache; waiting for the translation of chunk `done.len()`.
    Translating {
        key: String,
        source: Option<String>,
        target: String,
        chunks: Vec<String>,
        done: Vec<String>,
    },
    /// Translated; waiting for the cache to store the text.
    Storing { key: String, text: String },
    /// Over, with this result.
    Finished(TranslationResult),
}

/// The model of a `Session`.
pub enum SessionView {
    Admission { request: RequestView, max_text_length: usize },
    Lookup { request: RequestView, key: Seq<char> },
    Translating {
        key: Seq<char>,
        source: Option<Seq<char>>,
        target: Seq<char>,
        chunks: Seq<Seq<char>>,
        done: Seq<Seq<char>>,
    },
    Storing { key: Seq<char>, text: Seq<char> },
    Finished(ResultView),
}

impl View for Session {
    type V = SessionView;

    open spec fn view(&self) -> SessionView {
        match self {
            Session::Admission { request, max_text_length } => SessionView::Admission {
                request: request@,
                max_text_length: *max_text_length,
            },
            Session::Lookup { request, key } => SessionView::Lookup { request: request@, key: key@ },
            Session::Translating { key, source, target, chunks, done } => SessionView::Translating {
                key: key@,
                source: opt_view(*source),
                target: target@,
                chunks: chunks.deep_view(),
                done: done.deep_view(),
            },
            Session::Storing { key, text } => SessionView::Storing { key: key@, text: text@ },
            Session::Finished(result) => SessionView::Finished(result@),
        }
    }
}

/// The text between the translated chunks of a result.
pub open spec fn line_break() -> Seq<char> {
    seq!['\n']
}

/// The source language as it goes into the cache key: empty where none is
/// given.
pub open spec fn source_or_empty(source: Option<Seq<char>>) -> Seq<char> {
    match source {
        Some(language) => language,
        None => Seq::empty(),
    }
}

/// The cache key of `request`, made from its fields as they came.
pub open spec fn request_key(request: RequestView) -> Seq<char> {
    cache_key(request.text, source_or_empty(request.source), request.target)
}

impl SessionView {
    /// A session that translates has a chunk left to translate.
    pub open spec fn wf(self) -> bool {
        match self {
            SessionView::Translating { chunks, done, .. } => done.len() < chunks.len(),
            _ => true,
        }
    }

    /// The action that the session asks for.
    pub open spec fn pending(self) -> ActionView {
        match self {
            SessionView::Admission { .. } => ActionView::CheckRate,
            SessionView::Lookup { key, .. } => ActionView::Lookup { key },
            SessionView::Translating { source, target, chunks, done, .. } => ActionView::CallProvider(
                request_for(chunks[done.len() as int], source, target),
            ),
            SessionView::Storing { key, text } => ActionView::Store { key, text },
            SessionView::Finished(result) => ActionView::Respond(result),
        }
    }

    /// Whether `event` answers the action that the session asks for.
    pub open spec fn expects(self, event: EventView) -> bool {
        match (self, event) {
            (SessionView::Admission { .. }, EventView::Admission(_)) => true,
            (SessionView::Lookup { .. }, EventView::Lookup(_)) => true,
            (SessionView::Translating { .. }, EventView::Reply(_)) => true,
            (SessionView::Storing { .. }, EventView::Stored) => true,
            _ => false,
        }
    }
}

/// The state that a request starts in.
pub open spec fn initial(request: RequestView, max_text_length: usize) -> SessionView {
    SessionView::Admission { request, max_text_length }
}

/// The state after the rate limiter has decided. A request that is denied is
/// over at once, before its fields are looked at. One that is admitted and
/// breaks a rule is over with the first rule that it breaks. Any other goes
/// on to the cache, with the key of its fields as they came.
pub open spec fn after_admission(request: RequestView, max_text_length: usize, admitted: bool)
    -> SessionView {
    if !admitted {
        SessionView::Finished(ResultView::Failure(FailureView::RateLimited))
    } else {
        match violation(request, max_text_length) {
            Some(error) => SessionView::Finished(ResultView::Failure(FailureView::Invalid(error))),
            None => SessionView::Lookup { request, key: request_key(request) },
        }
    }
}

/// The state once `chunks` are known and `done` of them are translated: the
/// next chunk goes to the provider; when none is left the translations,
/// joined by line breaks, go to the cache.
pub open spec fn after_progress(
    key: Seq<char>,
    source: Option<Seq<char>>,
    target: Seq<char>,
    chunks: Seq<Seq<char>>,
    done: Seq<Seq<char>>,
) -> SessionView {
    if done.len() < chunks.len() {
        SessionView::Translating { key, source, target, chunks, done }
    } else {
        SessionView::Storing { key, text: joined(done, line_break()) }
    }
}

/// The state after the cache has answered. A text found ends the session as
/// a success from the cache. Else the text of the request is split into
/// chunks and translation starts.
pub open spec fn after_lookup(request: RequestView, key: Seq<char>, found: Option<Seq<char>>)
    -> SessionView {
    match found {
        Some(text) => SessionView::Finished(ResultView::Success { text, cached: true }),
        None => after_progress(
            key,
            effective_source(request.source),
            request.target,
            chunks_of(request.text, MAX_CHUNK_CHARS as nat),
            Seq::empty(),
        ),
    }
}

/// The state after the provider has answered for a chunk. A failure ends
/// the session and nothing is stored; a translation is added to those done.
pub open spec fn after_reply(
    key: Seq<char>,
    source: Option<Seq<char>>,
    target: Seq<char>,
    chunks: Seq<Seq<char>>,
    done: Seq<Seq<char>>,
    reply: ReplyView,
) -> SessionView {
    match reply_result(reply) {
        Ok(text) => after_progress(key, source, target, chunks, done.push(text)),
        Err(failure) => SessionView::Finished(ResultView::Failure(FailureView::Provider(failure))),
    }
}

/// The next state. An event that does not answer the pending action
/// changes nothing.
pub open spec fn next_state(session: SessionView, event: EventView) -> SessionView {
    match (session, event) {
        (SessionView::Admission { request, max_text_length }, EventView::Admission(admitted)) =>
            after_admission(request, max_text_length, admitted),
        (SessionView::Lookup { request, key }, EventView::Lookup(found)) => after_lookup(
            request,
            key,
            found,
        ),
        (
            SessionView::Translating { key, source, target, chunks, done },
            EventView::Reply(reply),
        ) => after_reply(key, source, target, chunks, done, reply),
        (SessionView::Storing { key, text }, EventView::Stored) => SessionView::Finished(
            ResultView::Success { text, cached: false },
        ),
        _ => session,
    }
}

/// A request that the rate limiter denies is answered with status 429,
/// whatever it holds.
pub proof fn lemma_denied_is_429(request: RequestView, max_text_length: usize)
    ensures
        next_state(initial(request, max_text_length), EventView::Admission(false))
            == SessionView::Finished(ResultView::Failure(FailureView::RateLimited)),
        status_of(ResultView::Failure(FailureView::RateLimited)) == 429,
{
}

/// A request that is admitted and breaks a rule is answered with status 400
/// and the first rule that it breaks: an empty text before a text that is
/// too long, and that before a blank target language. Neither the cache nor
/// the provider is asked.
pub proof fn lemma_invalid_is_400(request: RequestView, max_text_length: usize)
    requires
        violation(request, max_text_length) is Some,
    ensures
        next_state(initial(request, max_text_length), EventView::Admission(true))
            == SessionView::Finished(
            ResultView::Failure(FailureView::Invalid(violation(request, max_text_length)->0)),
        ),
        status_of(
            ResultView::Failure(FailureView::Invalid(violation(request, max_text_length)->0)),
        ) == 400,
        request.text.len() == 0 ==> violation(request, max_text_length) == Some(
            crate::request::ValidationError::EmptyText,
        ),
        request.text.len() > max_text_length ==> violation(request, max_text_length) == Some(
            crate::request::ValidationError::TextTooLong { max: max_text_length },
        ),
{
}

/// A request that is made again within the time to live is answered from
/// the cache. When a session has stored `text` for a request at `stored_at`,
/// a session for a request with the same fields asks the cache for the same
/// key; a lookup at `now`, no later than `stored_at` plus the time to live,
/// finds `text`; and the session ends with `text`, marked as cached, without
/// asking for a call of the provider.
pub proof fn lemma_repeat_is_served_from_cache(
    request: RequestView,
    max_text_length: usize,
    entries: crate::cache::Entries,
    capacity: nat,
    ttl: u64,
    text: Seq<char>,
    stored_at: u64,
    now: u64,
)
    requires
        violation(request, max_text_length) is None,
        now <= stored_at + ttl,
    ensures
        ({
            let asking = next_state(initial(request, max_text_length), EventView::Admission(true));
            let stored = after_set(entries, capacity, ttl, request_key(request), text, stored_at);
            let found = lookup(stored, request_key(request), now);
            let answered = next_state(asking, EventView::Lookup(found));
            &&& asking.pending() == ActionView::Lookup { key: request_key(request) }
            &&& found == Some(text)
            &&& answered == SessionView::Finished(ResultView::Success { text, cached: true })
            &&& answered.pending() == ActionView::Respond(
                ResultView::Success { text, cached: true },
            )
            &&& status_of(ResultView::Success { text, cached: true }) == 200
        }),
{
    crate::cache::lemma_fresh_until_expiry(
        entries,
        capacity,
        ttl,
        request_key(request),
        text,
        stored_at,
        now,
    );
}

/// The state after each of `events` in turn.
pub open spec fn after_events(session: SessionView, events: Seq<EventView>) -> SessionView
    decreases events.len(),
{
    if events.len() == 0 {
        session
    } else {
        after_events(next_state(session, events[0]), events.drop_first())
    }
}

/// The events that hand `replies` to a session, in their order.
pub open spec fn reply_events(replies: Seq<ReplyView>) -> Seq<EventView> {
    Seq::new(replies.len(), |i: int| EventView::Reply(replies[i]))
}

/// A session that is over stays as it is, whatever comes.
pub proof fn lemma_finished_stays(result: ResultView, events: Seq<EventView>)
    ensures
        after_events(SessionView::Finished(result), events) == SessionView::Finished(result),
    decreases events.len(),
{
    if events.len() > 0 {
        lemma_finished_stays(result, events.drop_first());
    }
}

/// The chunks are translated in their order, and the result keeps it: when
/// the provider answers each chunk that is left with a translation, the
/// session goes on to store the translations of all chunks, joined by line
/// breaks in the order of the chunks.
pub proof fn lemma_translated_in_order(
    key: Seq<char>,
    source: Option<Seq<char>>,
    target: Seq<char>,
    chunks: Seq<Seq<char>>,
    done: Seq<Seq<char>>,
    replies: Seq<ReplyView>,
    texts: Seq<Seq<char>>,
)
    requires
        done.len() < chunks.len(),
        done.len() + replies.len() == chunks.len(),
        texts.len() == replies.len(),
        forall|i: int| 0 <= i < replies.len() ==> reply_result(#[trigger] replies[i]) == Ok::<
            Seq<char>,
            crate::provider::ProviderFailure,
        >(texts[i]),
    ensures
        after_events(
            SessionView::Translating { key, source, target, chunks, done },
            reply_events(replies),
        ) == (SessionView::Storing { key, text: joined(done + texts, line_break()) }),
    decreases replies.len(),
{
    let events = reply_events(replies);
    let first = done.push(texts[0]);
    let start = SessionView::Translating { key, source, target, chunks, done };
    let stepped = next_state(start, events[0]);
    assert(events[0] == EventView::Reply(replies[0]));
    assert(reply_result(replies[0]) == Ok::<Seq<char>, crate::provider::ProviderFailure>(texts[0]));
    assert(stepped == after_progress(key, source, target, chunks, first));
    assert(after_events(start, events) == after_events(stepped, events.drop_first()));
    assert(events.drop_first() =~= reply_events(replies.drop_first()));
    assert(first + texts.drop_first() =~= done + texts);
    if first.len() < chunks.len() {
        assert forall|i: int| 0 <= i < replies.drop_first().len() implies reply_result(
            #[trigger] replies.drop_first()[i],
        ) == Ok::<Seq<char>, crate::provider::ProviderFailure>(texts.drop_first()[i]) by {
            assert(replies.drop_first()[i] == replies[i + 1]);
        }
        lemma_translated_in_order(
            key,
            source,
            target,
            chunks,
            first,
            replies.drop_first(),
            texts.drop_first(),
        );
    } else {
        assert(texts.drop_first() =~= Seq::<Seq<char>>::empty());
        assert(first + texts.drop_first() =~= first);
        assert(events.drop_first().len() == 0);
    }
}

/// The first chunk that the provider fails on ends the session with that
/// failure: the chunks behind it are not sent, and nothing is stored.
pub proof fn lemma_failure_ends_session(
    key: Seq<char>,
    source: Option<Seq<char>>,
    target: Seq<char>,
    chunks: Seq<Seq<char>>,
    done: Seq<Seq<char>>,
    reply: ReplyView,
    later: Seq<EventView>,
)
    requires
        done.len() < chunks.len(),
        reply_result(reply) is Err,
    ensures
        after_events(
            SessionView::Translating { key, source, target, chunks, done },
            seq![EventView::Reply(reply)] + later,
        ) == SessionView::Finished(
            ResultView::Failure(FailureView::Provider(reply_result(reply)->Err_0)),
        ),
        status_of(ResultView::Failure(FailureView::Provider(reply_result(reply)->Err_0))) == 500,
{
    let events = seq![EventView::Reply(reply)] + later;
    assert(events[0] == EventView::Reply(reply));
    assert(events.drop_first() =~= later);
    lemma_finished_stays(
        ResultView::Failure(FailureView::Provider(reply_result(reply)->Err_0)),
        later,
    );
}

/// A session asks for a call of the provider only while it translates, and
/// for a store only once every chunk is translated: a session that ends
/// with a failure has stored nothing.
pub proof fn lemma_store_follows_last_chunk(session: SessionView, event: EventView)
    requires
        session.wf(),
        next_state(session, event).pending() is Store,
        !(session.pending() is Store),
    ensures
        session matches SessionView::Translating { chunks, done, .. } ==> done.len() + 1
            == chunks.len() && reply_result(event->Reply_0) is Ok,
        session matches SessionView::Lookup { request, .. } ==> event == EventView::Lookup(None)
            && chunks_of(request.text, MAX_CHUNK_CHARS as nat).len() == 0,
        session is Translating || session is Lookup,
{
}

fn decided(request: TranslationRequest, max_text_length: usize, admitted: bool) -> (next: Session)
    ensures
        next@ == after_admission(request@, max_text_length, admitted),
{
    if !admitted {
        return Session::Finished(TranslationResult::Failure(Failure::RateLimited));
    }
    match validate(&request, max_text_length) {
        Err(error) => Session::Finished(TranslationResult::Failure(Failure::Invalid(error))),
        Ok(_) => {
            let key = match &request.source {
                Some(language) => build_cache_key(
                    request.text.as_str(),
                    Some(language.as_str()),
                    request.target.as_str(),
                ),
                None => build_cache_key(request.text.as_str(), None, request.target.as_str()),
            };
            Session::Lookup { request, key }
        },
    }
}

fn progressed(
    key: String,
    source: Option<String>,
    target: String,
    chunks: Vec<String>,
    done: Vec<String>,
) -> (next: Session)
    ensures
        next@ == after_progress(
            key@,
            opt_view(source),
            target@,
            chunks.deep_view(),
            done.deep_view(),
        ),
{
    if done.len() < chunks.len() {
        Session::Translating { key, source, target, chunks, done }
    } else {
        proof {
            reveal_strlit("\n");
            assert("\n"@ =~= line_break());
        }
        let text = join_with(&done, "\n");
        Session::Storing { key, text }
    }
}

fn looked_up(request: TranslationRequest, key: String, found: Option<String>) -> (next: Session)
    ensures
        next@ == after_lookup(request@, key@, opt_view(found)),
{
    match found {
        Some(text) => Session::Finished(TranslationResult::Success { text, cached: true }),
        None => {
            let chunks = split_text(request.text.as_str(), MAX_CHUNK_CHARS);
            let source = match request.source {
                Some(language) => if language.as_str().is_empty() {
                    None
                } else {
                    Some(language)
                },
                None => None,
            };
            let done: Vec<String> = Vec::new();
            assert(done.deep_view() =~= Seq::<Seq<char>>::empty());
            progressed(key, source, request.target, chunks, done)
        },
    }
}

fn replied(
    key: String,
    source: Option<String>,
    target: String,
    chunks: Vec<String>,
    done: Vec<String>,
    reply: ProviderReply,
) -> (next: Session)
    ensures
        next@ == after_reply(
            key@,
            opt_view(source),
            target@,
            chunks.deep_view(),
            done.deep_view(),
            reply@,
        ),
{
    match interpret_reply(reply) {
        Ok(text) => {
            let mut done = done;
            let ghost before = done.deep_view();
            done.push(text);
            assert(done.deep_view() =~= before.push(text@));
            progressed(key, source, target, chunks, done)
        },
        Err(error) => Session::Finished(TranslationResult::Failure(Failure::Provider(error))),
    }
}

impl Session {
    /// The session for `request`, which may hold at most `max_text_length`
    /// characters of text.
    pub fn begin(request: TranslationRequest, max_text_length: usize) -> (session: Session)
        ensures
            session@ == initial(request@, max_text_length),
            session@.wf(),
    {
        Session::Admission { request, max_text_length }
    }

    /// The action that the session asks for.
    pub fn pending(&self) -> (action: Action)
        requires
            self@.wf(),
        ensures
            action@ == self@.pending(),
            self matches Session::Finished(result) ==> action == Action::Respond(*result),
    {
        match self {
            Session::Admission { .. } => Action::CheckRate,
            Session::Lookup { key, .. } => Action::Lookup { key: key.clone() },
            Session::Translating { source, target, chunks, done, .. } => {
                assert(chunks.deep_view()[done.len() as int] == chunks[done.len() as int]@);
                assert(done.deep_view().len() == done.len());
                Action::CallProvider(
                    match source {
                        Some(language) => provider_request(
                            chunks[done.len()].as_str(),
                            Some(language.as_str()),
                            target.as_str(),
                        ),
                        None => provider_request(chunks[done.len()].as_str(), None, target.as_str()),
                    },
                )
            },
            Session::Storing { key, text } => Action::Store { key: key.clone(), text: text.clone() },
            Session::Finished(result) => Action::Respond(result.duplicate()),
        }
    }

    /// Whether `event` answers the action that the session asks for.
    pub fn accepts(&self, event: &Event) -> (accepted: bool)
        ensures
            accepted == self@.expects(event@),
    {
        match (self, event) {
            (Session::Admission { .. }, Event::Admission(_)) => true,
            (Session::Lookup { .. }, Event::Lookup(_)) => true,
            (Session::Translating { .. }, Event::Reply(_)) => true,
            (Session::Storing { .. }, Event::Stored) => true,
            _ => false,
        }
    }

    /// Whether the session is over.
    pub fn is_finished(&self) -> (finished: bool)
        ensures
            finished == (self@ is Finished),
    {
        match self {
            Session::Finished(_) => true,
            _ => false,
        }
    }

    /// Takes the answer to the pending action and gives the next state.
    ///
    /// The rate limiter is asked before the request is looked at; the rules
    /// are checked before the cache is asked; the chunks are translated one
    /// by one, in order; the first failure ends the session with nothing
    /// stored. An event that does not answer the pending action changes
    /// nothing.
    pub fn step(self, event: Event) -> (next: Session)
        requires
            self@.wf(),
        ensures
            next@ == next_state(self@, event@),
            next@.wf(),
    {
        match self {
            Session::Admission { request, max_text_length } => match event {
                Event::Admission(admitted) => decided(request, max_text_length, admitted),
                _ => Session::Admission { request, max_text_length },
            },
            Session::Lookup { request, key } => match event {
                Event::Lookup(found) => looked_up(request, key, found),
                _ => Session::Lookup { request, key },
            },
            Session::Translating { key, source, target, chunks, done } => match event {
                Event::Reply(reply) => replied(key, source, target, chunks, done, reply),
                _ => Session::Translating { key, source, target, chunks, done },
            },
            Session::Storing { key, text } => match event {
                Event::Stored => Session::Finished(
                    TranslationResult::Success { text, cached: false },
                ),
                _ => Session::Storing { key, text },
            },
            Session::Finished(result) => Session::Finished(result),
        }
    }
}

} // verus!
