//! The read endpoint: who may read, and what is done for a request.
//!
//! Serving a request takes outside work: looking the subscription up in
//! the store and fetching the remote document. The decisions between those
//! steps are made here. [`step`] takes what has happened and says what to
//! do next; whoever runs it does the work and comes back with the outcome.

use crate::document::{document_of_bytes, top_level, Document, DocumentView, ParseError};
use crate::yaml::{writable, written_texts};
use crate::merge::{merge, merged, views};
use crate::models::{first_config, Config, Manifest};
use crate::string_map::same_text;
use vstd::prelude::*;

verus! {

/// What a caller passes with a read request.
#[derive(Debug, Clone, PartialEq)]
pub struct Query {
    /// The token that the caller presents.
    pub token: String,
    /// Whether the local document is to be left out. Absent means no.
    pub disable: Option<bool>,
}

impl Query {
    /// A query with this token and this flag.
    pub fn new(token: String, disable: Option<bool>) -> (r: Query)
        ensures
            r.token == token,
            r.disable == disable,
    {
        Query { token, disable }
    }

    /// Whether the local document takes part in the merge: it does unless
    /// the query disables it.
    pub open spec fn includes_local(&self) -> bool {
        self.disable != Some(true)
    }

    /// Whether the local document takes part in the merge.
    pub fn include_local(&self) -> (r: bool)
        ensures
            r == self.includes_local(),
    {
        match self.disable {
            Some(disabled) => !disabled,
            None => true,
        }
    }
}

/// Whether the presented token is the configured one.
pub fn authorize(configured_token: &str, presented_token: &str) -> (r: bool)
    ensures
        r == (configured_token@ == presented_token@),
{
    same_text(configured_token, presented_token)
}

/// How far the serving of a request has come.
#[derive(Debug, Clone, Copy, PartialEq, Eq)]
pub enum Phase {
    /// Nothing has happened yet.
    Start,
    /// The subscription is being looked up.
    Finding { include_local: bool },
    /// The remote document is being fetched.
    Fetching { include_local: bool },
    /// The reply has been given.
    Done,
}

/// What has happened.
#[derive(Debug, Clone, PartialEq)]
pub enum Event {
    /// A caller asks for the document of the subscription `name`.
    Request { name: String, query: Query },
    /// The store has looked the name up and found these subscriptions.
    Found { configs: Vec<Config> },
    /// The store has failed.
    StoreFailed,
    /// The remote side has answered, with a status of success or not, and
    /// with this body.
    Fetched { success: bool, body: Vec<u8> },
    /// The remote side could not be reached.
    FetchFailed,
}

/// Why a request that was admitted could not be served.
#[derive(Debug, Clone, Copy, PartialEq, Eq)]
pub enum Failure {
    /// The store failed.
    Store,
    /// The store holds no subscription of that name.
    UnknownName,
    /// The remote side could not be reached, or its status is not one of
    /// success.
    Fetch,
    /// What the remote side sent is no document.
    Parse(ParseError),
    /// The merged document could not be written.
    Write,
    /// Something happened that the phase does not wait for.
    OutOfTurn,
}

/// What the caller is told.
#[derive(Debug, Clone, PartialEq)]
pub enum Reply {
    /// The token is not the configured one.
    Forbidden,
    /// The request could not be served. The caller is not told why.
    ServerError(Failure),
    /// The merged document, as YAML text.
    Text(String),
}

impl Reply {
    /// The HTTP status of the reply.
    pub open spec fn status_code(&self) -> u16 {
        match self {
            Reply::Text(_) => 200,
            Reply::Forbidden => 403,
            Reply::ServerError(_) => 500,
        }
    }

    /// The HTTP status of the reply: 200 with the document, 403 for a
    /// token that is refused, 500 for a failure.
    pub fn status(&self) -> (r: u16)
        ensures
            r == self.status_code(),
    {
        match self {
            Reply::Text(_) => 200,
            Reply::Forbidden => 403,
            Reply::ServerError(_) => 500,
        }
    }
}

/// What is to be done next.
#[derive(Debug, Clone, PartialEq)]
pub enum Action {
    /// Look up the subscriptions with this name.
    Find { name: String },
    /// Fetch the document at this address.
    Fetch { url: String },
    /// Give this reply, and end.
    Reply(Reply),
}

/// The outcome of a step: the new phase, and what to do.
#[derive(Debug, Clone, PartialEq)]
pub struct Step {
    pub phase: Phase,
    pub action: Action,
}

/// The document that answers a request, given the body that was fetched:
/// the merge of the manifest with the document in the body, or why the
/// body is no document.
pub open spec fn answer_view(manifest: Manifest, body: Seq<u8>, include_local: bool) -> Result<
    DocumentView,
    ParseError,
> {
    match document_of_bytes(body) {
        Ok(remote) => Ok(merged(manifest.document_view(), seq![remote], include_local)),
        Err(e) => Err(e),
    }
}

/// The phase that follows when `event` happens in `phase`, where `token` is
/// the configured token.
pub open spec fn next_phase(token: Seq<char>, phase: Phase, event: Event) -> Phase {
    match (phase, event) {
        (Phase::Start, Event::Request { name, query }) => if query.token@ == token {
            Phase::Finding { include_local: query.includes_local() }
        } else {
            Phase::Done
        },
        (Phase::Finding { include_local }, Event::Found { configs }) => if configs@.len() > 0 {
            Phase::Fetching { include_local }
        } else {
            Phase::Done
        },
        _ => Phase::Done,
    }
}

/// The action that ends a request with a failure.
pub open spec fn failure(cause: Failure) -> Action {
    Action::Reply(Reply::ServerError(cause))
}

/// Whether `action` is what is to be done when `event` happens in `phase`.
///
/// A request with the wrong token is refused. With the right token the
/// subscription is looked up, the first that is found is fetched, and the
/// body of a successful answer is merged with the manifest and given as
/// the reply: one of the texts that the writer gives for the top-level
/// entries of the merged document. Whatever else happens is a failure, and
/// the reply says which.
pub open spec fn action_fits(manifest: Manifest, phase: Phase, event: Event, action: Action) -> bool {
    match (phase, event) {
        (Phase::Start, Event::Request { name, query }) => if query.token@ == manifest.token@ {
            action matches Action::Find { name: wanted } && wanted@ == name@
        } else {
            action == Action::Reply(Reply::Forbidden)
        },
        (Phase::Finding { include_local }, Event::Found { configs }) => if configs@.len() > 0 {
            action matches Action::Fetch { url } && url@ == configs@[0].url@
        } else {
            action == failure(Failure::UnknownName)
        },
        (Phase::Finding { include_local }, Event::StoreFailed) => action == failure(Failure::Store),
        (Phase::Fetching { include_local }, Event::Fetched { success, body }) => if !success {
            action == failure(Failure::Fetch)
        } else {
            match answer_view(manifest, body@, include_local) {
                Ok(d) => if writable(top_level(d)) {
                    action matches Action::Reply(Reply::Text(text)) && written_texts(
                        top_level(d),
                    ).contains(text@)
                } else {
                    action == failure(Failure::Write)
                },
                Err(e) => action == failure(Failure::Parse(e)),
            }
        },
        (Phase::Fetching { include_local }, Event::FetchFailed) => action == failure(Failure::Fetch),
        _ => action == failure(Failure::OutOfTurn),
    }
}

/// Whether a step from `phase` on `event` asks for a fetch.
pub open spec fn fetches(phase: Phase, event: Event) -> bool {
    phase is Finding && (event matches Event::Found { configs } && configs@.len() > 0)
}

/// The phase after the first `n` of the events, from the start.
pub open spec fn phase_after(token: Seq<char>, events: Seq<Event>, n: int) -> Phase
    decreases n,
{
    if n <= 0 {
        Phase::Start
    } else {
        next_phase(token, phase_after(token, events, n - 1), events[n - 1])
    }
}

/// The document that answers a request, given the body that was fetched.
pub fn answer(manifest: &Manifest, body: Vec<u8>, include_local: bool) -> (r: Result<
    Document,
    ParseError,
>)
    ensures
        match answer_view(*manifest, body@, include_local) {
            Ok(d) => r is Ok && r.unwrap()@ == d,
            Err(e) => r matches Err(x) && x == e,
        },
{
    let remote = match Document::from_bytes(body) {
        Ok(remote) => remote,
        Err(e) => {
            return Err(e);
        },
    };
    let local = manifest.document();
    let mut remotes: Vec<Document> = Vec::new();
    remotes.push(remote);
    assert(views(remotes@) =~= seq![remote@]);
    Ok(merge(&local, &remotes, include_local))
}

/// The reply that carries the written document, or tells that writing it
/// failed.
pub fn reply_of(text: Option<String>) -> (r: Reply)
    ensures
        r == (match text {
            Some(text) => Reply::Text(text),
            None => Reply::ServerError(Failure::Write),
        }),
{
    match text {
        Some(text) => Reply::Text(text),
        None => Reply::ServerError(Failure::Write),
    }
}

/// What is to be done when `event` happens in `phase`.
pub fn step(manifest: &Manifest, phase: Phase, event: Event) -> (r: Step)
    ensures
        r.phase == next_phase(manifest.token@, phase, event),
        action_fits(*manifest, phase, event, r.action),
        r.action is Fetch <==> fetches(phase, event),
        r.action is Reply <==> r.phase is Done,
{
    match (phase, event) {
        (Phase::Start, Event::Request { name, query }) => {
            if authorize(manifest.token.as_str(), query.token.as_str()) {
                Step {
                    phase: Phase::Finding { include_local: query.include_local() },
                    action: Action::Find { name },
                }
            } else {
                Step { phase: Phase::Done, action: Action::Reply(Reply::Forbidden) }
            }
        },
        (Phase::Finding { include_local }, Event::Found { configs }) => {
            match first_config(&configs) {
                Some(config) => Step {
                    phase: Phase::Fetching { include_local },
                    action: Action::Fetch { url: config.url.clone() },
                },
                None => fail(Failure::UnknownName),
            }
        },
        (Phase::Finding { include_local }, Event::StoreFailed) => fail(Failure::Store),
        (Phase::Fetching { include_local }, Event::Fetched { success, body }) => {
            if !success {
                fail(Failure::Fetch)
            } else {
                match answer(manifest, body, include_local) {
                    Ok(document) => Step {
                        phase: Phase::Done,
                        action: Action::Reply(reply_of(document.render())),
                    },
                    Err(e) => fail(Failure::Parse(e)),
                }
            }
        },
        (Phase::Fetching { include_local }, Event::FetchFailed) => fail(Failure::Fetch),
        _ => fail(Failure::OutOfTurn),
    }
}

/// The step that ends a request with a failure.
fn fail(cause: Failure) -> (r: Step)
    ensures
        r.phase is Done,
        r.action == failure(cause),
{
    Step { phase: Phase::Done, action: Action::Reply(Reply::ServerError(cause)) }
}

/// Once the reply has been given, the request stays done whatever happens.
pub proof fn law_done_is_final(token: Seq<char>, events: Seq<Event>, m: int, n: int)
    requires
        0 <= m <= n,
        phase_after(token, events, m) is Done,
    ensures
        phase_after(token, events, n) is Done,
    decreases n - m,
{
    if m < n {
        law_done_is_final(token, events, m, n - 1);
    }
}

/// Three steps end a request: the one that admits it, the one that looks
/// the subscription up, and the one that takes the answer of the remote
/// side.
pub proof fn law_three_steps_end_a_request(token: Seq<char>, events: Seq<Event>)
    ensures
        phase_after(token, events, 3) is Done,
{
    reveal_with_fuel(phase_after, 4);
}

/// A request with a token other than the configured one is refused at
/// once, and no step that follows asks for a fetch, whatever happens.
pub proof fn law_refused_request_never_fetches(token: Seq<char>, events: Seq<Event>, n: int)
    requires
        events.len() > 0,
        events[0] matches Event::Request { query, .. } && query.token@ != token,
        0 <= n < events.len(),
    ensures
        phase_after(token, events, 1) is Done,
        !fetches(phase_after(token, events, n), events[n]),
{
    if n >= 1 {
        law_done_is_final(token, events, 1, n);
    }
}

} // verus!
