//! Remembering something for the user.
use crate::exchange::{
    consistent, fits, or_empty, planned, refused_status, text_or_empty, user_id_or_default,
    user_or_default, Action, ActionView, Event, Phase, Post, PostView,
};
use crate::feedback::correct_memory;
use crate::json::Json;
use crate::memory::{
    AddMessage, AddMessageView, AddRequest, AddRequestView, FeedbackRequest, SearchRequest,
};
use crate::node::{search_memories, Start};
use crate::search::search_memory;
use crate::status::{shown_status, status_text};
use crate::text::followed_by;
use vstd::prelude::*;

verus! {

/// What to send, if it is known where to.
pub open spec fn add_plan(
    content: Seq<char>,
    base_url: Option<String>,
    user_id: Option<String>,
) -> Result<PostView<AddRequestView>, Seq<char>> {
    match base_url {
        None => Err("MEMOS_BASE_URL not set"@),
        Some(base) => Ok(
            PostView {
                url: base@ + "/add"@,
                timeout_secs: 3,
                body: AddRequestView {
                    messages: seq![AddMessageView { role: "user"@, content }],
                    user_id: user_or_default(user_id),
                },
            },
        ),
    }
}

/// What to send for the memory that the model wants to keep.
pub fn add_memory(content: String, base_url: Option<String>, user_id: Option<String>) -> (r:
    Result<Post<AddRequest>, String>)
    ensures
        planned(r) == add_plan(content@, base_url, user_id),
{
    match base_url {
        None => Err("MEMOS_BASE_URL not set".to_owned()),
        Some(base) => {
            let url = followed_by(base.as_str(), "/add");
            let mut messages: Vec<AddMessage> = Vec::new();
            messages.push(AddMessage { role: "user".to_owned(), content });
            let body = AddRequest { messages, user_id: user_id_or_default(user_id) };
            assert(body@.messages =~= seq![AddMessageView { role: "user"@, content: content@ }]);
            Ok(Post { url, timeout_secs: 3, body })
        },
    }
}

/// What the model is told when nothing was kept.
pub open spec fn add_refusal(status: Seq<char>, body: Seq<char>) -> Seq<char> {
    "出现错误，状态码："@ + status + "，具体信息："@ + body
}

/// What the model is told when nothing was kept.
pub fn refuse_add(status: &str, body: &str) -> (r: String)
    ensures
        r@ == add_refusal(status@, body@),
{
    let mut r = followed_by("出现错误，状态码：", status);
    r.append("，具体信息：");
    r.append(body);
    r
}

/// How the request goes on. Its reply is never read as a value.
pub open spec fn add_next(content: Seq<char>, phase: Phase, event: Event<()>) -> (
    Phase,
    ActionView,
) {
    match event {
        Event::SendFailed(e) => (Phase::Done, ActionView::Finish(Err("请求失败: "@ + e@))),
        Event::Status(code) => if code == 200 {
            (Phase::Done, ActionView::Finish(Ok("已成功记住"@ + content)))
        } else {
            (Phase::Refused(code), ActionView::ReadText)
        },
        Event::Text(text) => (
            Phase::Done,
            ActionView::Finish(
                Err(add_refusal(shown_status(phase->Refused_0), text_or_empty(text))),
            ),
        ),
        Event::Json(_) => vstd::pervasive::arbitrary(),
    }
}

/// How the request goes on.
pub fn add_memory_step(content: &str, phase: Phase, event: Event<()>) -> (r: (Phase, Action))
    requires
        fits(phase, event),
        phase != Phase::Accepted,
    ensures
        r.0 == add_next(content@, phase, event).0,
        r.1@ == add_next(content@, phase, event).1,
{
    match event {
        Event::SendFailed(e) => (
            Phase::Done,
            Action::Finish(Err(followed_by("请求失败: ", e.as_str()))),
        ),
        Event::Status(code) => {
            if code == 200 {
                (Phase::Done, Action::Finish(Ok(followed_by("已成功记住", content))))
            } else {
                (Phase::Refused(code), Action::ReadText)
            }
        },
        Event::Text(text) => {
            let status = status_text(refused_status(phase));
            let body = or_empty(text);
            (Phase::Done, Action::Finish(Err(refuse_add(status.as_str(), body.as_str()))))
        },
        Event::Json(_) => vstd::pervasive::unreached(),
    }
}

/// The request comes to an end with the second event at the latest, and its
/// reply is never wanted as a value.
pub proof fn law_add_ends(content: Seq<char>, phase: Phase, event: Event<()>)
    requires
        fits(phase, event),
        phase != Phase::Accepted,
    ensures
        consistent(add_next(content, phase, event).0, add_next(content, phase, event).1),
        add_next(content, phase, event).0 != Phase::Accepted,
        phase != Phase::Sent ==> add_next(content, phase, event).0 == Phase::Done,
{
}

/// What is to be remembered goes out to the letter, as one message of the user, for
/// the user that is set; it is refused only without an address.
pub proof fn law_add_memory(
    content: String,
    base_url: Option<String>,
    user_id: Option<String>,
    r: Result<Post<AddRequest>, String>,
)
    requires
        call_ensures(add_memory, (content, base_url, user_id), r),
    ensures
        base_url is None ==> r is Err && r.unwrap_err()@ == "MEMOS_BASE_URL not set"@,
        base_url matches Some(base) ==> r is Ok && {
            let post = r.unwrap();
            &&& post.url@ == base@ + "/add"@
            &&& post.timeout_secs == 3
            &&& post.body.messages@.len() == 1
            &&& post.body.messages@[0].role@ == "user"@
            &&& post.body.messages@[0].content@ == content@
            &&& post.body.user_id@ == (match user_id {
                Some(id) => id@,
                None => "default"@,
            })
        },
{
    if let Ok(post) = r {
        assert(post.body@ == post@.body);
        assert(post.body@.messages.len() == 1);
        assert(post.body@.messages[0] == post.body.messages@[0]@);
    }
}

/// What is kept for a user is searched for and changed under the same user: all
/// that goes to the service goes there for the user that is set, or for `default`.
pub proof fn law_all_requests_are_for_one_user(
    user_id: Option<String>,
    base_url: Option<String>,
    content: String,
    query: String,
    input: &Json,
    memory_id: String,
    action: String,
    new_content: Option<String>,
    reason: Option<String>,
    added: Post<AddRequest>,
    searched: Post<SearchRequest>,
    looked_up: Post<SearchRequest>,
    changed: Post<FeedbackRequest>,
)
    requires
        call_ensures(
            add_memory,
            (content, base_url, user_id),
            Ok::<Post<AddRequest>, String>(added),
        ),
        call_ensures(
            search_memory,
            (query, base_url, user_id),
            Ok::<Post<SearchRequest>, String>(searched),
        ),
        call_ensures(search_memories, (input, base_url, user_id), Start::Send(looked_up)),
        call_ensures(
            correct_memory,
            (memory_id, action, new_content, reason, base_url, user_id),
            Ok::<Post<FeedbackRequest>, String>(changed),
        ),
    ensures
        added.body.user_id@ == (match user_id {
            Some(id) => id@,
            None => "default"@,
        }),
        searched.body.user_id@ == added.body.user_id@,
        looked_up.body.user_id@ == added.body.user_id@,
        changed.body.user_id@ == added.body.user_id@,
{
    assert(added.body@ == added@.body);
    assert(searched.body@ == searched@.body);
    assert(looked_up.body@ == looked_up@.body);
    assert(changed.body@ == changed@.body);
}

/// What comes of it: only the status 200 says that it was kept, and then the model
/// is told what; any other status is told with the text of the reply.
pub proof fn law_add_memory_step(
    content: &str,
    phase: Phase,
    event: Event<()>,
    r: (Phase, Action),
)
    requires
        fits(phase, event),
        phase != Phase::Accepted,
        call_ensures(add_memory_step, (content, phase, event), r),
    ensures
        match event {
            Event::SendFailed(e) => r.0 is Done && (r.1 matches Action::Finish(Err(told)) && told@
                == "请求失败: "@ + e@),
            Event::Status(code) => if code == 200 {
                r.0 is Done && (r.1 matches Action::Finish(Ok(told)) && told@ == "已成功记住"@
                    + content@)
            } else {
                r.0 == Phase::Refused(code) && r.1 is ReadText
            },
            Event::Text(text) => r.0 is Done && (phase matches Phase::Refused(code) && (
            r.1 matches Action::Finish(Err(told)) && told@ == "出现错误，状态码："@ + shown_status(
                code,
            ) + "，具体信息："@ + (match text {
                Some(t) => t@,
                None => Seq::empty(),
            }))),
            Event::Json(_) => false,
        },
{
}

} // verus!
