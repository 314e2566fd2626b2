//! What a request carries, and which requests are accepted by the engine.
use vstd::prelude::*;

verus! {

/// The largest body, in bytes, that a request may declare.
pub const MAX_BODY_BYTES: u64 = 16384;

/// A question to answer against a context passage.
pub struct QaQuery {
    pub question: String,
    pub context: String,
}

/// What a [`QaQuery`] holds, as character sequences.
pub struct QueryView {
    pub question: Seq<char>,
    pub context: Seq<char>,
}

impl View for QaQuery {
    type V = QueryView;

    open spec fn view(&self) -> QueryView {
        QueryView { question: self.question@, context: self.context@ }
    }
}

/// Why a request was not answered.
#[derive(Clone, Copy, Debug, PartialEq, Eq, Structural)]
pub enum RequestError {
    /// `question` or `context` is absent.
    MissingField,
    /// `question` or `context` is the empty string.
    EmptyField,
    /// The query string or the body could not be decoded.
    Unreadable,
    /// A body was sent without a declared length.
    LengthRequired,
    /// The declared body length is over [`MAX_BODY_BYTES`].
    PayloadTooLarge,
    /// The engine failed or gave no answer.
    InferenceFailure,
}

/// A request as it arrived, once its encoding has been decoded.
pub enum Incoming {
    /// Fields taken from the query string.
    Query { question: Option<String>, context: Option<String> },
    /// Fields taken from a JSON body, with the length its headers declared.
    Body { declared_len: Option<u64>, question: Option<String>, context: Option<String> },
    /// The query string or the body was not decodable.
    Unreadable,
}

/// What an [`Incoming`] holds, as character sequences.
pub enum IncomingView {
    Query { question: Option<Seq<char>>, context: Option<Seq<char>> },
    Body {
        declared_len: Option<u64>,
        question: Option<Seq<char>>,
        context: Option<Seq<char>>,
    },
    Unreadable,
}

impl View for Incoming {
    type V = IncomingView;

    open spec fn view(&self) -> IncomingView {
        match self {
            Incoming::Query { question, context } => IncomingView::Query {
                question: question.deep_view(),
                context: context.deep_view(),
            },
            Incoming::Body { declared_len, question, context } => IncomingView::Body {
                declared_len: *declared_len,
                question: question.deep_view(),
                context: context.deep_view(),
            },
            Incoming::Unreadable => IncomingView::Unreadable,
        }
    }
}

impl RequestError {
    /// The HTTP status that reports this error.
    pub open spec fn status_spec(self) -> u16 {
        match self {
            RequestError::MissingField => 400,
            RequestError::EmptyField => 400,
            RequestError::Unreadable => 400,
            RequestError::LengthRequired => 411,
            RequestError::PayloadTooLarge => 413,
            RequestError::InferenceFailure => 500,
        }
    }

    /// The text of the reply that reports this error.
    pub open spec fn message_spec(self) -> Seq<char> {
        match self {
            RequestError::MissingField => "question and context are both required"@,
            RequestError::EmptyField => "question and context must not be empty"@,
            RequestError::Unreadable => "malformed query string or body"@,
            RequestError::LengthRequired => "a body needs a content-length"@,
            RequestError::PayloadTooLarge => "payload too large"@,
            RequestError::InferenceFailure => "inference failed"@,
        }
    }

    pub fn status(&self) -> (r: u16)
        ensures
            r == self.status_spec(),
    {
        match self {
            RequestError::MissingField => 400,
            RequestError::EmptyField => 400,
            RequestError::Unreadable => 400,
            RequestError::LengthRequired => 411,
            RequestError::PayloadTooLarge => 413,
            RequestError::InferenceFailure => 500,
        }
    }

    pub fn message(&self) -> (r: String)
        ensures
            r@ == self.message_spec(),
    {
        match self {
            RequestError::MissingField => String::from_str("question and context are both required"),
            RequestError::EmptyField => String::from_str("question and context must not be empty"),
            RequestError::Unreadable => String::from_str("malformed query string or body"),
            RequestError::LengthRequired => String::from_str("a body needs a content-length"),
            RequestError::PayloadTooLarge => String::from_str("payload too large"),
            RequestError::InferenceFailure => String::from_str("inference failed"),
        }
    }
}

/// The verdict on a body's declared length: a body needs a declared length,
/// and that length must not exceed [`MAX_BODY_BYTES`].
pub open spec fn body_len_verdict(declared_len: Option<u64>) -> Result<(), RequestError> {
    match declared_len {
        None => Err(RequestError::LengthRequired),
        Some(n) => if n <= MAX_BODY_BYTES {
            Ok(())
        } else {
            Err(RequestError::PayloadTooLarge)
        },
    }
}

/// The verdict on two decoded fields: both present and both non-empty.
pub open spec fn fields_verdict(question: Option<Seq<char>>, context: Option<Seq<char>>) -> Result<
    QueryView,
    RequestError,
> {
    match (question, context) {
        (Some(q), Some(c)) => if q.len() == 0 || c.len() == 0 {
            Err(RequestError::EmptyField)
        } else {
            Ok(QueryView { question: q, context: c })
        },
        _ => Err(RequestError::MissingField),
    }
}

/// The verdict on a whole request: the query it carries, or why it is refused.
/// A body's length is judged before its fields.
pub open spec fn acceptance(incoming: IncomingView) -> Result<QueryView, RequestError> {
    match incoming {
        IncomingView::Query { question, context } => fields_verdict(question, context),
        IncomingView::Body { declared_len, question, context } => match body_len_verdict(
            declared_len,
        ) {
            Ok(_) => fields_verdict(question, context),
            Err(e) => Err(e),
        },
        IncomingView::Unreadable => Err(RequestError::Unreadable),
    }
}

/// Judges a body's declared length before the body is read.
pub fn check_content_length(declared_len: Option<u64>) -> (r: Result<(), RequestError>)
    ensures
        r == body_len_verdict(declared_len),
{
    match declared_len {
        None => Err(RequestError::LengthRequired),
        Some(n) => if n <= MAX_BODY_BYTES {
            Ok(())
        } else {
            Err(RequestError::PayloadTooLarge)
        },
    }
}

fn check_fields(question: Option<String>, context: Option<String>) -> (r: Result<
    QaQuery,
    RequestError,
>)
    ensures
        match (r, fields_verdict(question.deep_view(), context.deep_view())) {
            (Ok(q), Ok(v)) => q@ == v,
            (Err(e), Err(f)) => e == f,
            _ => false,
        },
{
    match (question, context) {
        (Some(q), Some(c)) => if q.as_str().is_empty() || c.as_str().is_empty() {
            Err(RequestError::EmptyField)
        } else {
            Ok(QaQuery { question: q, context: c })
        },
        _ => Err(RequestError::MissingField),
    }
}

/// Accepts a request: its query when the request may reach the engine, else
/// the error that refuses it.
pub fn accept(incoming: Incoming) -> (r: Result<QaQuery, RequestError>)
    ensures
        match (r, acceptance(incoming@)) {
            (Ok(q), Ok(v)) => q@ == v,
            (Err(e), Err(f)) => e == f,
            _ => false,
        },
{
    match incoming {
        Incoming::Query { question, context } => check_fields(question, context),
        Incoming::Body { declared_len, question, context } => match check_content_length(
            declared_len,
        ) {
            Ok(_) => check_fields(question, context),
            Err(e) => Err(e),
        },
        Incoming::Unreadable => Err(RequestError::Unreadable),
    }
}

} // verus!
