//! An exchange with the memory service: a request is sent, the status of the
//! reply decides what is read of it, and a text comes out at the end.
use crate::status::is_status;
use vstd::prelude::*;

verus! {

/// A request to send.
#[derive(Debug)]
pub struct Post<B> {
    pub url: String,
    pub timeout_secs: u64,
    pub body: B,
}

/// A request to send, over its characters.
pub struct PostView<V> {
    pub url: Seq<char>,
    pub timeout_secs: u64,
    pub body: V,
}

impl<B: View> View for Post<B> {
    type V = PostView<B::V>;

    open spec fn view(&self) -> PostView<B::V> {
        PostView { url: self.url@, timeout_secs: self.timeout_secs, body: self.body@ }
    }
}

/// The view of a request, or of the text that says why there is none.
pub open spec fn planned<B: View>(plan: Result<Post<B>, String>) -> Result<
    PostView<B::V>,
    Seq<char>,
> {
    match plan {
        Ok(post) => Ok(post@),
        Err(text) => Err(text@),
    }
}

/// How far an exchange has come.
#[derive(Debug, Clone, Copy, PartialEq, Eq, Structural)]
pub enum Phase {
    /// The request is on its way.
    Sent,
    /// The reply has this status and its text is wanted.
    Refused(u16),
    /// The reply is wanted as a value.
    Accepted,
    /// The exchange is over.
    Done,
}

/// What happened.
#[derive(Debug)]
pub enum Event<T> {
    /// The request could not be sent, for the reason given.
    SendFailed(String),
    /// A reply with this status came.
    Status(u16),
    /// The text of the reply was read, or could not be.
    Text(Option<String>),
    /// The reply was read as a value, or could not be, for the reason given.
    Json(Result<T, String>),
}

/// What is to be done.
#[derive(Debug)]
pub enum Action {
    /// Read the text of the reply.
    ReadText,
    /// Read the reply as a value.
    ReadJson,
    /// The exchange is over, with this outcome.
    Finish(Result<String, String>),
}

/// What is to be done, over its characters.
pub enum ActionView {
    ReadText,
    ReadJson,
    Finish(Result<Seq<char>, Seq<char>>),
}

impl View for Action {
    type V = ActionView;

    open spec fn view(&self) -> ActionView {
        match self {
            Action::ReadText => ActionView::ReadText,
            Action::ReadJson => ActionView::ReadJson,
            Action::Finish(Ok(t)) => ActionView::Finish(Ok(t@)),
            Action::Finish(Err(t)) => ActionView::Finish(Err(t@)),
        }
    }
}

/// The events that can follow: a request is answered or not, and what is wanted
/// of a reply is what is read of it.
pub open spec fn fits<T>(phase: Phase, event: Event<T>) -> bool {
    match phase {
        Phase::Sent => match event {
            Event::SendFailed(_) => true,
            Event::Status(code) => is_status(code),
            _ => false,
        },
        Phase::Refused(code) => is_status(code) && event is Text,
        Phase::Accepted => event is Json,
        Phase::Done => false,
    }
}

/// An exchange that goes on wants something of the reply that fits its phase;
/// one that is over has an outcome.
pub open spec fn consistent(phase: Phase, action: ActionView) -> bool {
    match phase {
        Phase::Sent => false,
        Phase::Refused(code) => is_status(code) && action is ReadText,
        Phase::Accepted => action is ReadJson,
        Phase::Done => action is Finish,
    }
}

/// The text of a reply, which is empty where it could not be read.
pub open spec fn text_or_empty(text: Option<String>) -> Seq<char> {
    match text {
        Some(t) => t@,
        None => Seq::empty(),
    }
}

/// The text of a reply, which is empty where it could not be read.
pub fn or_empty(text: Option<String>) -> (r: String)
    ensures
        r@ == text_or_empty(text),
{
    match text {
        Some(t) => t,
        None => String::new(),
    }
}

/// The user for whom a request is made.
pub open spec fn user_or_default(user_id: Option<String>) -> Seq<char> {
    match user_id {
        Some(id) => id@,
        None => "default"@,
    }
}

/// The user for whom a request is made.
pub fn user_id_or_default(user_id: Option<String>) -> (r: String)
    ensures
        r@ == user_or_default(user_id),
{
    match user_id {
        Some(id) => id,
        None => "default".to_owned(),
    }
}

/// The status of a reply whose text is wanted.
pub fn refused_status(phase: Phase) -> (r: u16)
    requires
        phase is Refused,
    ensures
        r == phase->Refused_0,
{
    match phase {
        Phase::Refused(code) => code,
        _ => vstd::pervasive::unreached(),
    }
}

/// A request is made for the user that is set, to the letter, and for `default`
/// where none is set.
pub proof fn law_user_id_or_default(user_id: Option<String>, r: String)
    requires
        call_ensures(user_id_or_default, (user_id,), r),
    ensures
        user_id matches Some(id) ==> r@ == id@,
        user_id is None ==> r@ == "default"@,
{
}

/// A text that was read is kept as it is, and one that could not be read is empty.
pub proof fn law_or_empty(text: Option<String>, r: String)
    requires
        call_ensures(or_empty, (text,), r),
    ensures
        text matches Some(t) ==> r@ == t@,
        text is None ==> r@.len() == 0,
{
}

} // verus!
