//! The life of one request, as decisions from state and event to next state
//! and action. The caller performs each action and reports what came of it.
use vstd::prelude::*;
use crate::answer::{
    answer_json, take_top_candidate, top_candidate, AnswerResult, AnswerView, Candidate,
    CandidateView,
};
use crate::query::{
    accept, acceptance, body_len_verdict, Incoming, IncomingView, QaQuery, QueryView, RequestError,
    MAX_BODY_BYTES,
};

verus! {

/// The HTTP status of a served answer.
pub const STATUS_OK: u16 = 200;

/// A reply to send: its status and its body.
pub struct Reply {
    pub status: u16,
    pub body: String,
}

pub struct ReplyView {
    pub status: u16,
    pub body: Seq<char>,
}

impl View for Reply {
    type V = ReplyView;

    open spec fn view(&self) -> ReplyView {
        ReplyView { status: self.status, body: self.body@ }
    }
}

/// Where a request stands.
pub enum Phase {
    /// Nothing has been decided yet.
    Received,
    /// Accepted, and waiting for exclusive access to the engine.
    Queued(QaQuery),
    /// Holding the engine while it answers.
    Inferring(QaQuery),
    /// Replied to, or given up; nothing more happens.
    Done,
}

pub enum PhaseView {
    Received,
    Queued(QueryView),
    Inferring(QueryView),
    Done,
}

impl View for Phase {
    type V = PhaseView;

    open spec fn view(&self) -> PhaseView {
        match self {
            Phase::Received => PhaseView::Received,
            Phase::Queued(q) => PhaseView::Queued(q@),
            Phase::Inferring(q) => PhaseView::Inferring(q@),
            Phase::Done => PhaseView::Done,
        }
    }
}

/// What happened to a request.
pub enum Event {
    /// The request arrived and its encoding was decoded.
    Arrived(Incoming),
    /// The request now holds exclusive access to the engine.
    AccessGranted,
    /// The client went away.
    Cancelled,
    /// The engine returned its candidates, or `None` when it failed.
    EngineFinished(Option<Vec<Vec<Candidate>>>),
}

pub enum EventView {
    Arrived(IncomingView),
    AccessGranted,
    Cancelled,
    EngineFinished(Option<Seq<Seq<CandidateView>>>),
}

impl View for Event {
    type V = EventView;

    open spec fn view(&self) -> EventView {
        match self {
            Event::Arrived(i) => EventView::Arrived(i@),
            Event::AccessGranted => EventView::AccessGranted,
            Event::Cancelled => EventView::Cancelled,
            Event::EngineFinished(o) => EventView::EngineFinished(o.deep_view()),
        }
    }
}

/// What the caller is to do next.
pub enum Action {
    /// Nothing.
    Ignore,
    /// Join the line for exclusive access to the engine.
    RequestAccess,
    /// Leave the line without ever touching the engine.
    Withdraw,
    /// Run the engine, once, on this query.
    RunEngine(QaQuery),
    /// Send this reply, first giving up access to the engine if asked to.
    Respond { release_access: bool, reply: Reply },
}

pub enum ActionView {
    Ignore,
    RequestAccess,
    Withdraw,
    RunEngine(QueryView),
    Respond { release_access: bool, reply: ReplyView },
}

impl View for Action {
    type V = ActionView;

    open spec fn view(&self) -> ActionView {
        match self {
            Action::Ignore => ActionView::Ignore,
            Action::RequestAccess => ActionView::RequestAccess,
            Action::Withdraw => ActionView::Withdraw,
            Action::RunEngine(q) => ActionView::RunEngine(q@),
            Action::Respond { release_access, reply } => ActionView::Respond {
                release_access: *release_access,
                reply: reply@,
            },
        }
    }
}

/// The reply that reports an error.
pub open spec fn error_reply(e: RequestError) -> ReplyView {
    ReplyView { status: e.status_spec(), body: e.message_spec() }
}

/// The reply to a query, given what the engine returned.
pub open spec fn answer_reply(q: QueryView, out: Option<Seq<Seq<CandidateView>>>) -> ReplyView {
    match out {
        Some(o) => match top_candidate(o) {
            Some(c) => ReplyView {
                status: STATUS_OK,
                body: answer_json(
                    AnswerView {
                        question: q.question,
                        context: q.context,
                        answer: c.answer,
                        score: c.score,
                    },
                ),
            },
            None => error_reply(RequestError::InferenceFailure),
        },
        None => error_reply(RequestError::InferenceFailure),
    }
}

/// One step of a request: its next phase and the action to take. An event
/// that does not fit the phase changes nothing.
pub open spec fn step_spec(p: PhaseView, e: EventView) -> (PhaseView, ActionView) {
    match (p, e) {
        (PhaseView::Received, EventView::Arrived(i)) => match acceptance(i) {
            Ok(q) => (PhaseView::Queued(q), ActionView::RequestAccess),
            Err(err) => (
                PhaseView::Done,
                ActionView::Respond { release_access: false, reply: error_reply(err) },
            ),
        },
        (PhaseView::Received, EventView::Cancelled) => (PhaseView::Done, ActionView::Ignore),
        (PhaseView::Queued(q), EventView::AccessGranted) => (
            PhaseView::Inferring(q),
            ActionView::RunEngine(q),
        ),
        (PhaseView::Queued(_), EventView::Cancelled) => (PhaseView::Done, ActionView::Withdraw),
        (PhaseView::Inferring(q), EventView::EngineFinished(out)) => (
            PhaseView::Done,
            ActionView::Respond { release_access: true, reply: answer_reply(q, out) },
        ),
        _ => (p, ActionView::Ignore),
    }
}

fn error_reply_of(e: RequestError) -> (r: Reply)
    ensures
        r@ == error_reply(e),
{
    Reply { status: e.status(), body: e.message() }
}

fn answer_reply_of(q: QaQuery, out: Option<Vec<Vec<Candidate>>>) -> (r: Reply)
    ensures
        r@ == answer_reply(q@, out.deep_view()),
{
    match out {
        Some(o) => match take_top_candidate(o) {
            Some(c) => {
                let a = AnswerResult {
                    question: q.question,
                    context: q.context,
                    answer: c.answer,
                    score: c.score,
                };
                Reply { status: STATUS_OK, body: a.to_json() }
            },
            None => error_reply_of(RequestError::InferenceFailure),
        },
        None => error_reply_of(RequestError::InferenceFailure),
    }
}

/// Decides one step of a request.
pub fn step(p: Phase, e: Event) -> (r: (Phase, Action))
    ensures
        (r.0@, r.1@) == step_spec(p@, e@),
{
    match (p, e) {
        (Phase::Received, Event::Arrived(i)) => match accept(i) {
            Ok(q) => (Phase::Queued(q), Action::RequestAccess),
            Err(err) => (
                Phase::Done,
                Action::Respond { release_access: false, reply: error_reply_of(err) },
            ),
        },
        (Phase::Received, Event::Cancelled) => (Phase::Done, Action::Ignore),
        (Phase::Queued(q), Event::AccessGranted) => {
            let run = QaQuery { question: q.question.clone(), context: q.context.clone() };
            (Phase::Inferring(q), Action::RunEngine(run))
        },
        (Phase::Queued(_), Event::Cancelled) => (Phase::Done, Action::Withdraw),
        (Phase::Inferring(q), Event::EngineFinished(out)) => (
            Phase::Done,
            Action::Respond { release_access: true, reply: answer_reply_of(q, out) },
        ),
        (p, _) => (p, Action::Ignore),
    }
}

/// The phases and actions of a request that goes through `events` from `p`.
pub open spec fn run(p: PhaseView, events: Seq<EventView>) -> (PhaseView, Seq<ActionView>)
    decreases events.len(),
{
    if events.len() == 0 {
        (p, Seq::empty())
    } else {
        let (next, a) = step_spec(p, events[0]);
        let (last, rest) = run(next, events.drop_first());
        (last, seq![a] + rest)
    }
}

/// How many times `actions` runs the engine.
pub open spec fn engine_calls(actions: Seq<ActionView>) -> nat
    decreases actions.len(),
{
    if actions.len() == 0 {
        0
    } else {
        (if actions[0] is RunEngine {
            1nat
        } else {
            0nat
        }) + engine_calls(actions.drop_first())
    }
}

/// How many engine runs a request may still make from phase `p`.
pub open spec fn call_budget(p: PhaseView) -> nat {
    match p {
        PhaseView::Received => 1,
        PhaseView::Queued(_) => 1,
        _ => 0,
    }
}

/// The fields a request carries, whatever its encoding.
pub open spec fn fields_of(i: IncomingView) -> (Option<Seq<char>>, Option<Seq<char>>) {
    match i {
        IncomingView::Query { question, context } => (question, context),
        IncomingView::Body { question, context, .. } => (question, context),
        IncomingView::Unreadable => (None, None),
    }
}

/// Whether a request was decodable, and its body, if it has one, declares a
/// length within the ceiling.
pub open spec fn well_framed(i: IncomingView) -> bool {
    match i {
        IncomingView::Query { .. } => true,
        IncomingView::Body { declared_len, .. } => body_len_verdict(declared_len) is Ok,
        IncomingView::Unreadable => false,
    }
}

proof fn lemma_run_shape(p: PhaseView, events: Seq<EventView>)
    requires
        events.len() > 0,
    ensures
        run(p, events).1.len() == events.len(),
        run(p, events).1[0] == step_spec(p, events[0]).1,
        run(p, events).1.drop_first() == run(step_spec(p, events[0]).0, events.drop_first()).1,
        run(p, events).0 == run(step_spec(p, events[0]).0, events.drop_first()).0,
    decreases events.len(),
{
    let (next, a) = step_spec(p, events[0]);
    let rest = run(next, events.drop_first()).1;
    if events.len() > 1 {
        lemma_run_shape(next, events.drop_first());
    }
    assert((seq![a] + rest).drop_first() =~= rest);
}

proof fn lemma_calls_within_budget(p: PhaseView, events: Seq<EventView>)
    ensures
        engine_calls(run(p, events).1) <= call_budget(p),
    decreases events.len(),
{
    if events.len() > 0 {
        let next = step_spec(p, events[0]).0;
        lemma_run_shape(p, events);
        lemma_calls_within_budget(next, events.drop_first());
    }
}

/// A request runs the engine at most once, whatever happens to it.
pub proof fn lemma_at_most_one_engine_call(events: Seq<EventView>)
    ensures
        engine_calls(run(PhaseView::Received, events).1) <= 1,
{
    lemma_calls_within_budget(PhaseView::Received, events);
}

/// A request runs the engine only in the step in which it was granted
/// exclusive access: never while it waits, never after it is done.
pub proof fn lemma_engine_runs_only_with_access(p: PhaseView, events: Seq<EventView>, k: int)
    requires
        0 <= k < events.len(),
        run(p, events).1[k] is RunEngine,
    ensures
        events[k] is AccessGranted,
        run(p, events).1.len() == events.len(),
    decreases events.len(),
{
    lemma_run_shape(p, events);
    if k > 0 {
        let next = step_spec(p, events[0]).0;
        assert(run(p, events).1[k] == run(next, events.drop_first()).1[k - 1]);
        lemma_engine_runs_only_with_access(next, events.drop_first(), k - 1);
    }
}

/// An accepted request that is granted access and answered runs the engine
/// exactly once, on the question and context it carried, and its reply
/// echoes them verbatim beside the engine's best answer.
pub proof fn lemma_accepted_request_runs_engine_once(
    i: IncomingView,
    out: Option<Seq<Seq<CandidateView>>>,
)
    requires
        acceptance(i) is Ok,
    ensures
        ({
            let q = QueryView { question: fields_of(i).0->0, context: fields_of(i).1->0 };
            let events = seq![
                EventView::Arrived(i),
                EventView::AccessGranted,
                EventView::EngineFinished(out),
            ];
            &&& acceptance(i) == Ok::<QueryView, RequestError>(q)
            &&& run(PhaseView::Received, events) == (
                PhaseView::Done,
                seq![
                    ActionView::RequestAccess,
                    ActionView::RunEngine(q),
                    ActionView::Respond { release_access: true, reply: answer_reply(q, out) },
                ],
            )
            &&& engine_calls(run(PhaseView::Received, events).1) == 1
            &&& (out matches Some(o) && top_candidate(o) is Some) ==> answer_reply(q, out)
                == (ReplyView {
                status: STATUS_OK,
                body: answer_json(
                    AnswerView {
                        question: q.question,
                        context: q.context,
                        answer: top_candidate(out->0)->0.answer,
                        score: top_candidate(out->0)->0.score,
                    },
                ),
            })
        }),
{
    let q = QueryView { question: fields_of(i).0->0, context: fields_of(i).1->0 };
    let events = seq![
        EventView::Arrived(i),
        EventView::AccessGranted,
        EventView::EngineFinished(out),
    ];
    let respond = ActionView::Respond { release_access: true, reply: answer_reply(q, out) };
    let e2 = events.drop_first();
    let e3 = e2.drop_first();
    assert(e3 =~= seq![EventView::EngineFinished(out)]);
    assert(e3.drop_first() =~= Seq::<EventView>::empty());
    let r3 = run(PhaseView::Inferring(q), e3);
    assert(run(PhaseView::Done, e3.drop_first()).1 =~= Seq::<ActionView>::empty());
    assert(r3.1 =~= seq![respond]);
    assert(r3.0 == PhaseView::Done);
    assert(e2[0] == EventView::AccessGranted);
    assert(run(PhaseView::Queued(q), e2).1 =~= seq![ActionView::RunEngine(q), respond]);
    let acts = run(PhaseView::Received, events).1;
    assert(acts =~= seq![ActionView::RequestAccess, ActionView::RunEngine(q), respond]);
    let tail = acts.drop_first().drop_first();
    assert(tail =~= seq![respond]);
    assert(tail.drop_first() =~= Seq::<ActionView>::empty());
    assert(engine_calls(tail.drop_first()) == 0);
    assert(engine_calls(tail) == 0);
    assert(engine_calls(acts.drop_first()) == 1);
}

/// A refused request is answered at once with its error, without access
/// being asked for, and never reaches the engine, whatever happens after.
pub proof fn lemma_refused_request_never_reaches_engine(i: IncomingView, rest: Seq<EventView>)
    requires
        acceptance(i) is Err,
    ensures
        ({
            let acts = run(PhaseView::Received, seq![EventView::Arrived(i)] + rest).1;
            &&& acts[0] == ActionView::Respond {
                release_access: false,
                reply: error_reply(acceptance(i)->Err_0),
            }
            &&& engine_calls(acts) == 0
        }),
{
    let events = seq![EventView::Arrived(i)] + rest;
    assert(events[0] == EventView::Arrived(i));
    lemma_run_shape(PhaseView::Received, events);
    lemma_calls_within_budget(PhaseView::Done, events.drop_first());
}

/// A body that declares more than the ceiling, or no length at all, is
/// refused with a client error before its fields are looked at, and never
/// reaches the engine.
pub proof fn lemma_unbounded_body_never_reaches_engine(
    declared_len: Option<u64>,
    question: Option<Seq<char>>,
    context: Option<Seq<char>>,
    rest: Seq<EventView>,
)
    requires
        declared_len matches Some(n) ==> n > MAX_BODY_BYTES,
    ensures
        ({
            let i = IncomingView::Body { declared_len, question, context };
            let acts = run(PhaseView::Received, seq![EventView::Arrived(i)] + rest).1;
            &&& acts[0] matches ActionView::Respond { release_access: false, reply }
                && 400 <= reply.status < 500
            &&& declared_len is Some ==> acts[0]->Respond_reply.status == 413
            &&& engine_calls(acts) == 0
        }),
{
    let i = IncomingView::Body { declared_len, question, context };
    lemma_refused_request_never_reaches_engine(i, rest);
}

/// A request whose question or context is missing is refused with a client
/// error and never reaches the engine.
pub proof fn lemma_missing_field_never_reaches_engine(i: IncomingView, rest: Seq<EventView>)
    requires
        well_framed(i),
        fields_of(i).0 is None || fields_of(i).1 is None,
    ensures
        ({
            let acts = run(PhaseView::Received, seq![EventView::Arrived(i)] + rest).1;
            &&& acts[0] == ActionView::Respond {
                release_access: false,
                reply: error_reply(RequestError::MissingField),
            }
            &&& error_reply(RequestError::MissingField).status == 400
            &&& engine_calls(acts) == 0
        }),
{
    lemma_refused_request_never_reaches_engine(i, rest);
}

/// The reply depends on nothing but what was asked and what the engine said:
/// two requests that carry the same question and context, by query string
/// or by body, and meet the same engine output, get the same reply, byte
/// for byte.
pub proof fn lemma_same_content_same_reply(
    i1: IncomingView,
    i2: IncomingView,
    out: Option<Seq<Seq<CandidateView>>>,
)
    requires
        well_framed(i1),
        well_framed(i2),
        fields_of(i1) == fields_of(i2),
    ensures
        run(
            PhaseView::Received,
            seq![EventView::Arrived(i1), EventView::AccessGranted, EventView::EngineFinished(out)],
        ) == run(
            PhaseView::Received,
            seq![EventView::Arrived(i2), EventView::AccessGranted, EventView::EngineFinished(out)],
        ),
{
    assert(acceptance(i1) == acceptance(i2));
    let events1 = seq![
        EventView::Arrived(i1),
        EventView::AccessGranted,
        EventView::EngineFinished(out),
    ];
    let events2 = seq![
        EventView::Arrived(i2),
        EventView::AccessGranted,
        EventView::EngineFinished(out),
    ];
    assert(events1.drop_first() =~= events2.drop_first());
}

} // verus!
