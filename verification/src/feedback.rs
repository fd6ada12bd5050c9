//! Correcting, supplementing and deleting a memory.
use crate::exchange::{
    consistent, fits, or_empty, planned, refused_status, text_or_empty, user_id_or_default,
    user_or_default, Action, ActionView, Event, Phase, Post, PostView,
};
use crate::memory::{
    FeedbackRequest, FeedbackRequestView, FeedbackResponse, FeedbackResponseView,
};
use crate::status::{shown_status, status_text};
use crate::text::{
    ascii_lowercase, followed_by, opt_text, result_text, same_text, to_lowercase, trim, trimmed,
    unicode_lowercase,
};
use vstd::prelude::*;

verus! {

/// What can be done to a memory.
pub open spec fn is_feedback_type(kind: Seq<char>) -> bool {
    kind == "correct"@ || kind == "supplement"@ || kind == "delete"@
}

/// What can be done to a memory only with new content for it.
pub open spec fn needs_content(kind: Seq<char>) -> bool {
    kind == "correct"@ || kind == "supplement"@
}

/// Why a change is refused before anything is sent, if it is.
pub open spec fn feedback_objection(
    memory_id: Seq<char>,
    kind: Seq<char>,
    new_content: Option<Seq<char>>,
) -> Option<Seq<char>> {
    if memory_id.len() == 0 {
        Some("错误，未提供记忆id。请先通过search_memory获取id"@)
    } else if !is_feedback_type(kind) {
        Some("错误：未指定操作类型。可选：correct、supplement、delete"@)
    } else if needs_content(kind) && (new_content is None || new_content.unwrap().len() == 0) {
        Some("错误："@ + kind + " 必须提供 new_content"@)
    } else {
        None
    }
}

/// The change to send, or why there is none.
pub open spec fn feedback_plan(
    memory_id: Seq<char>,
    kind: Seq<char>,
    new_content: Option<Seq<char>>,
    reason: Option<String>,
    base_url: Option<String>,
    user_id: Option<String>,
) -> Result<PostView<FeedbackRequestView>, Seq<char>> {
    match feedback_objection(memory_id, kind, new_content) {
        Some(objection) => Err(objection),
        None => match base_url {
            None => Err("MEMOS_BASE_URL not set"@),
            Some(base) => Ok(
                PostView {
                    url: base@ + "/memory/feedback"@,
                    timeout_secs: 10,
                    body: FeedbackRequestView {
                        memory_id,
                        feedback_type: kind,
                        reason: text_or_empty(reason),
                        user_id: user_or_default(user_id),
                        correction: if needs_content(kind) {
                            new_content
                        } else {
                            None
                        },
                    },
                },
            ),
        },
    }
}

/// Whether a change needs new content.
fn wants_content(kind: &str) -> (r: bool)
    ensures
        r == needs_content(kind@),
{
    same_text(kind, "correct") || same_text(kind, "supplement")
}

fn missing(content: &Option<String>) -> (r: bool)
    ensures
        r == (opt_text(*content) is None || opt_text(*content).unwrap().len() == 0),
{
    match content {
        Some(t) => t.as_str().is_empty(),
        None => true,
    }
}

/// The change to send, given what is to be done in small letters.
pub fn plan_feedback(
    memory_id: String,
    kind: String,
    new_content: Option<String>,
    reason: Option<String>,
    base_url: Option<String>,
    user_id: Option<String>,
) -> (r: Result<Post<FeedbackRequest>, String>)
    ensures
        planned(r) == feedback_plan(
            memory_id@,
            kind@,
            opt_text(new_content),
            reason,
            base_url,
            user_id,
        ),
{
    if memory_id.as_str().is_empty() {
        return Err("错误，未提供记忆id。请先通过search_memory获取id".to_owned());
    }
    let with_content = wants_content(kind.as_str());
    if !with_content && !same_text(kind.as_str(), "delete") {
        return Err("错误：未指定操作类型。可选：correct、supplement、delete".to_owned());
    }
    if with_content && missing(&new_content) {
        let mut objection = followed_by("错误：", kind.as_str());
        objection.append(" 必须提供 new_content");
        return Err(objection);
    }
    match base_url {
        None => Err("MEMOS_BASE_URL not set".to_owned()),
        Some(base) => {
            let url = followed_by(base.as_str(), "/memory/feedback");
            let correction = if with_content {
                new_content
            } else {
                None
            };
            let body = FeedbackRequest {
                memory_id,
                feedback_type: kind,
                reason: or_empty(reason),
                user_id: user_id_or_default(user_id),
                correction,
            };
            Ok(Post { url, timeout_secs: 10, body })
        },
    }
}

/// The change that the model asks for. What is to be done may be written with
/// white space around it and in capitals.
pub fn correct_memory(
    memory_id: String,
    action: String,
    new_content: Option<String>,
    reason: Option<String>,
    base_url: Option<String>,
    user_id: Option<String>,
) -> (r: Result<Post<FeedbackRequest>, String>)
    ensures
        planned(r) == feedback_plan(
            memory_id@,
            unicode_lowercase(trimmed(action@)),
            opt_text(new_content),
            reason,
            base_url,
            user_id,
        ),
        vstd::utf8::is_ascii_chars(trimmed(action@)) ==> planned(r) == feedback_plan(
            memory_id@,
            ascii_lowercase(trimmed(action@)),
            opt_text(new_content),
            reason,
            base_url,
            user_id,
        ),
{
    let kind = to_lowercase(trim(action.as_str()));
    plan_feedback(memory_id, kind, new_content, reason, base_url, user_id)
}

/// The content that a memory has after a change: what the service says, or what
/// was sent to it.
pub open spec fn content_after(
    request: FeedbackRequestView,
    response: FeedbackResponseView,
) -> Seq<char> {
    match response.new_content {
        Some(content) => content,
        None => match request.correction {
            Some(content) => content,
            None => Seq::empty(),
        },
    }
}

/// What the model is told when the service has answered a change.
pub open spec fn feedback_answer(
    request: FeedbackRequestView,
    response: FeedbackResponseView,
) -> Result<Seq<char>, Seq<char>> {
    if response.status != "success"@ {
        Err("操作失败："@ + (match response.message {
            Some(message) => message,
            None => "未知错误"@,
        }))
    } else if request.feedback_type == "delete"@ {
        Ok("记忆成功删除，ID: "@ + request.memory_id)
    } else {
        Ok("已成功"@ + (if request.feedback_type == "correct"@ {
            "修正"@
        } else {
            "补充"@
        }) + "\nID: "@ + request.memory_id + "\n新内容: "@ + content_after(request, response))
    }
}

/// What the model is told when the service has answered a change.
pub fn answer_feedback(request: &FeedbackRequest, response: FeedbackResponse) -> (r: Result<
    String,
    String,
>)
    ensures
        result_text(r) == feedback_answer(request@, response@),
{
    if !same_text(response.status.as_str(), "success") {
        let message = match response.message {
            Some(message) => message,
            None => "未知错误".to_owned(),
        };
        return Err(followed_by("操作失败：", message.as_str()));
    }
    if same_text(request.feedback_type.as_str(), "delete") {
        return Ok(followed_by("记忆成功删除，ID: ", request.memory_id.as_str()));
    }
    let name = if same_text(request.feedback_type.as_str(), "correct") {
        "修正"
    } else {
        "补充"
    };
    let content = match response.new_content {
        Some(content) => content,
        None => match &request.correction {
            Some(content) => content.clone(),
            None => String::new(),
        },
    };
    let mut text = followed_by("已成功", name);
    text.append("\nID: ");
    text.append(request.memory_id.as_str());
    text.append("\n新内容: ");
    text.append(content.as_str());
    Ok(text)
}

/// What the model is told of a refused change.
pub open spec fn feedback_refusal(status: Seq<char>, body: Seq<char>) -> Seq<char> {
    "操作失败 (HTTP "@ + status + "): "@ + body
}

/// What the model is told of a refused change.
pub fn refuse_feedback(status: &str, body: &str) -> (r: String)
    ensures
        r@ == feedback_refusal(status@, body@),
{
    let mut r = followed_by("操作失败 (HTTP ", status);
    r.append("): ");
    r.append(body);
    r
}

/// What the model is told when there is no such memory.
pub open spec fn unknown_memory(memory_id: Seq<char>) -> Seq<char> {
    "记忆ID "@ + memory_id + " 不存在，请确认ID是否正确"@
}

/// How the change goes on.
pub open spec fn feedback_next(
    request: FeedbackRequestView,
    phase: Phase,
    event: Event<FeedbackResponse>,
) -> (Phase, ActionView) {
    match event {
        Event::SendFailed(e) => (Phase::Done, ActionView::Finish(Err("请求失败: "@ + e@))),
        Event::Status(code) => if code == 200 {
            (Phase::Accepted, ActionView::ReadJson)
        } else if code == 404 {
            (Phase::Done, ActionView::Finish(Err(unknown_memory(request.memory_id))))
        } else {
            (Phase::Refused(code), ActionView::ReadText)
        },
        Event::Text(text) => (
            Phase::Done,
            ActionView::Finish(
                Err(feedback_refusal(shown_status(phase->Refused_0), text_or_empty(text))),
            ),
        ),
        Event::Json(Err(e)) => (
            Phase::Done,
            ActionView::Finish(Err("解析响应失败: "@ + e@)),
        ),
        Event::Json(Ok(response)) => (
            Phase::Done,
            ActionView::Finish(feedback_answer(request, response@)),
        ),
    }
}

/// How the change goes on.
pub fn correct_memory_step(
    request: &FeedbackRequest,
    phase: Phase,
    event: Event<FeedbackResponse>,
) -> (r: (Phase, Action))
    requires
        fits(phase, event),
    ensures
        r.0 == feedback_next(request@, phase, event).0,
        r.1@ == feedback_next(request@, phase, event).1,
{
    match event {
        Event::SendFailed(e) => (
            Phase::Done,
            Action::Finish(Err(followed_by("请求失败: ", e.as_str()))),
        ),
        Event::Status(code) => {
            if code == 200 {
                (Phase::Accepted, Action::ReadJson)
            } else if code == 404 {
                let mut text = followed_by("记忆ID ", request.memory_id.as_str());
                text.append(" 不存在，请确认ID是否正确");
                (Phase::Done, Action::Finish(Err(text)))
            } else {
                (Phase::Refused(code), Action::ReadText)
            }
        },
        Event::Text(text) => {
            let status = status_text(refused_status(phase));
            let body = or_empty(text);
            (Phase::Done, Action::Finish(Err(refuse_feedback(status.as_str(), body.as_str()))))
        },
        Event::Json(Err(e)) => (
            Phase::Done,
            Action::Finish(Err(followed_by("解析响应失败: ", e.as_str()))),
        ),
        Event::Json(Ok(response)) => (
            Phase::Done,
            Action::Finish(answer_feedback(request, response)),
        ),
    }
}

/// A change comes to an end with the second event at the latest.
pub proof fn law_feedback_ends(
    request: FeedbackRequestView,
    phase: Phase,
    event: Event<FeedbackResponse>,
)
    requires
        fits(phase, event),
    ensures
        consistent(feedback_next(request, phase, event).0, feedback_next(request, phase, event).1),
        phase != Phase::Sent ==> feedback_next(request, phase, event).0 == Phase::Done,
{
}

/// What is sent is complete: it names a memory and one of the three changes, and
/// it carries content, which is not empty, if and only if the change needs it.
pub proof fn law_sent_feedback_is_complete(
    memory_id: Seq<char>,
    kind: Seq<char>,
    new_content: Option<Seq<char>>,
    reason: Option<String>,
    base_url: Option<String>,
    user_id: Option<String>,
)
    ensures
        feedback_plan(memory_id, kind, new_content, reason, base_url, user_id) matches Ok(post)
            ==> {
            &&& post.body.memory_id.len() > 0
            &&& is_feedback_type(post.body.feedback_type)
            &&& (post.body.correction is Some <==> needs_content(post.body.feedback_type))
            &&& (post.body.correction matches Some(content) ==> content.len() > 0)
        },
{
}

/// When a change is sent and when it is refused, given what is to be done: it is
/// refused without a memory, without one of the three things to do, without the
/// content that it needs, and without an address, in this order.
pub proof fn law_plan_feedback(
    memory_id: String,
    kind: String,
    new_content: Option<String>,
    reason: Option<String>,
    base_url: Option<String>,
    user_id: Option<String>,
    r: Result<Post<FeedbackRequest>, String>,
)
    requires
        call_ensures(plan_feedback, (memory_id, kind, new_content, reason, base_url, user_id), r),
    ensures
        ({
            let known = kind@ == "correct"@ || kind@ == "supplement"@ || kind@ == "delete"@;
            let lacking = kind@ != "delete"@ && (new_content is None
                || new_content.unwrap()@.len() == 0);
            match r {
                Ok(_) => memory_id@.len() > 0 && known && !lacking && base_url is Some,
                Err(e) => {
                    ||| memory_id@.len() == 0 && e@
                        == "错误，未提供记忆id。请先通过search_memory获取id"@
                    ||| memory_id@.len() > 0 && !known && e@
                        == "错误：未指定操作类型。可选：correct、supplement、delete"@
                    ||| memory_id@.len() > 0 && known && lacking && e@ == "错误："@ + kind@
                        + " 必须提供 new_content"@
                    ||| memory_id@.len() > 0 && known && !lacking && base_url is None && e@
                        == "MEMOS_BASE_URL not set"@
                },
            }
        }),
{
    lemma_kinds_differ();
}

proof fn lemma_kinds_differ()
    ensures
        "correct"@ != "supplement"@,
        "correct"@ != "delete"@,
        "supplement"@ != "delete"@,
{
    reveal_strlit("correct");
    reveal_strlit("supplement");
    reveal_strlit("delete");
    assert("correct"@.len() == 7 && "supplement"@.len() == 10 && "delete"@.len() == 6);
}

/// Whatever is sent asks for the change that was asked for: what is to be done,
/// the memory, the reason and the user are those given, and so is the content of a
/// correction or a supplement. Nothing but these goes with it.
pub proof fn law_sent_change_is_the_given_one(
    memory_id: String,
    kind: String,
    new_content: Option<String>,
    reason: Option<String>,
    base_url: Option<String>,
    user_id: Option<String>,
    r: Result<Post<FeedbackRequest>, String>,
)
    requires
        call_ensures(plan_feedback, (memory_id, kind, new_content, reason, base_url, user_id), r),
    ensures
        r matches Ok(post) ==> {
            &&& base_url is Some && post.url@ == base_url.unwrap()@ + "/memory/feedback"@
            &&& post.timeout_secs == 10
            &&& post.body.memory_id@ == memory_id@
            &&& post.body.feedback_type@ == kind@
            &&& post.body.reason@ == (match reason {
                Some(text) => text@,
                None => Seq::empty(),
            })
            &&& post.body.user_id@ == (match user_id {
                Some(id) => id@,
                None => "default"@,
            })
            &&& kind@ == "delete"@ ==> post.body.correction is None
            &&& kind@ != "delete"@ ==> post.body.correction is Some && new_content is Some
                && post.body.correction.unwrap()@ == new_content.unwrap()@
        },
{
    lemma_kinds_differ();
    if let Ok(post) = r {
        assert(post@.body.correction == opt_text(post.body.correction));
    }
}

/// The change that the model asks for is planned with what it writes as the thing
/// to do, in small letters and without the white space around it, and with all
/// else as it is.
pub proof fn law_correct_memory_plans_the_action(
    memory_id: String,
    action: String,
    kind: String,
    new_content: Option<String>,
    reason: Option<String>,
    base_url: Option<String>,
    user_id: Option<String>,
    r: Result<Post<FeedbackRequest>, String>,
    plan: Result<Post<FeedbackRequest>, String>,
)
    requires
        call_ensures(
            correct_memory,
            (memory_id, action, new_content, reason, base_url, user_id),
            r,
        ),
        call_ensures(
            plan_feedback,
            (memory_id, kind, new_content, reason, base_url, user_id),
            plan,
        ),
        kind@ == unicode_lowercase(trimmed(action@)) || vstd::utf8::is_ascii_chars(
            trimmed(action@),
        ) && kind@ == ascii_lowercase(trimmed(action@)),
    ensures
        match (r, plan) {
            (Ok(a), Ok(b)) => {
                &&& a.url@ == b.url@
                &&& a.timeout_secs == b.timeout_secs
                &&& a.body.memory_id@ == b.body.memory_id@
                &&& a.body.feedback_type@ == b.body.feedback_type@
                &&& a.body.reason@ == b.body.reason@
                &&& a.body.user_id@ == b.body.user_id@
                &&& opt_text(a.body.correction) == opt_text(b.body.correction)
            },
            (Err(a), Err(b)) => a@ == b@,
            _ => false,
        },
{
    if let (Ok(a), Ok(b)) = (r, plan) {
        assert(a@ == b@);
        assert(a.body@ == a@.body && b.body@ == b@.body);
    }
}

/// Whatever the model sends in this way asks for the change that it named: where
/// the name of the change is ASCII, it goes out in small letters, for the memory
/// given, and a correction or a supplement with the content given.
pub proof fn law_sent_change_is_the_one_asked_for(
    memory_id: String,
    action: String,
    new_content: Option<String>,
    reason: Option<String>,
    base_url: Option<String>,
    user_id: Option<String>,
    post: Post<FeedbackRequest>,
)
    requires
        call_ensures(
            correct_memory,
            (memory_id, action, new_content, reason, base_url, user_id),
            Ok::<Post<FeedbackRequest>, String>(post),
        ),
        vstd::utf8::is_ascii_chars(trimmed(action@)),
    ensures
        ({
            let kind = ascii_lowercase(trimmed(action@));
            &&& kind == "correct"@ || kind == "supplement"@ || kind == "delete"@
            &&& post.body.feedback_type@ == kind
            &&& post.body.memory_id@ == memory_id@
            &&& post.body.reason@ == (match reason {
                Some(text) => text@,
                None => Seq::empty(),
            })
            &&& post.body.user_id@ == (match user_id {
                Some(id) => id@,
                None => "default"@,
            })
            &&& kind == "delete"@ ==> post.body.correction is None
            &&& kind == "correct"@ || kind == "supplement"@ ==> new_content is Some
                && post.body.correction is Some && post.body.correction.unwrap()@
                == new_content.unwrap()@
        }),
{
    lemma_kinds_differ();
    assert(post.body@ == post@.body);
    assert(post@.body.correction == opt_text(post.body.correction));
}

/// A complete request for a change, with the thing to do written in any case and
/// with white space around it, is sent.
pub proof fn law_complete_change_is_sent(
    memory_id: String,
    action: String,
    new_content: Option<String>,
    reason: Option<String>,
    base_url: Option<String>,
    user_id: Option<String>,
    r: Result<Post<FeedbackRequest>, String>,
)
    requires
        call_ensures(
            correct_memory,
            (memory_id, action, new_content, reason, base_url, user_id),
            r,
        ),
        memory_id@.len() > 0,
        vstd::utf8::is_ascii_chars(trimmed(action@)),
        ascii_lowercase(trimmed(action@)) == "delete"@ || (new_content is Some
            && new_content.unwrap()@.len() > 0 && (ascii_lowercase(trimmed(action@)) == "correct"@
            || ascii_lowercase(trimmed(action@)) == "supplement"@)),
        base_url is Some,
    ensures
        r is Ok,
{
    lemma_kinds_differ();
}

/// What the model is told of an answer: a failure with the message of the service,
/// or else what was done, to which memory, and what it says now, which is what the
/// service says or else what was sent.
pub proof fn law_answer_feedback(
    request: &FeedbackRequest,
    response: FeedbackResponse,
    r: Result<String, String>,
)
    requires
        call_ensures(answer_feedback, (request, response), r),
    ensures
        response.status@ != "success"@ ==> r is Err && r.unwrap_err()@ == "操作失败："@ + (
        match response.message {
            Some(message) => message@,
            None => "未知错误"@,
        }),
        response.status@ == "success"@ ==> r is Ok && {
            let content = match response.new_content {
                Some(content) => content@,
                None => match request.correction {
                    Some(content) => content@,
                    None => Seq::empty(),
                },
            };
            let shown = "\nID: "@ + request.memory_id@ + "\n新内容: "@ + content;
            let told = r.unwrap()@;
            if request.feedback_type@ == "delete"@ {
                told == "记忆成功删除，ID: "@ + request.memory_id@
            } else if request.feedback_type@ == "correct"@ {
                told == "已成功修正"@ + shown
            } else {
                told == "已成功补充"@ + shown
            }
        },
{
    reveal_strlit("已成功");
    reveal_strlit("修正");
    reveal_strlit("补充");
    reveal_strlit("已成功修正");
    reveal_strlit("已成功补充");
    assert("已成功修正"@ =~= "已成功"@ + "修正"@);
    assert("已成功补充"@ =~= "已成功"@ + "补充"@);
    if response.status@ == "success"@ {
        let content = content_after(request@, response@);
        let id = request.memory_id@;
        let told = r.unwrap()@;
        if request.feedback_type@ == "delete"@ {
        } else if request.feedback_type@ == "correct"@ {
            assert(told =~= "已成功修正"@ + ("\nID: "@ + id + "\n新内容: "@ + content));
        } else {
            assert(told =~= "已成功补充"@ + ("\nID: "@ + id + "\n新内容: "@ + content));
        }
    }
}

/// What a change comes to: only the status 200 is read as an answer, 404 says that
/// there is no such memory, and any other status is told with the text of the
/// reply. Each failure is told as what it is.
pub proof fn law_correct_memory_step(
    request: &FeedbackRequest,
    phase: Phase,
    event: Event<FeedbackResponse>,
    r: (Phase, Action),
)
    requires
        fits(phase, event),
        call_ensures(correct_memory_step, (request, phase, event), r),
    ensures
        match event {
            Event::SendFailed(e) => r.0 is Done && (r.1 matches Action::Finish(Err(told)) && told@
                == "请求失败: "@ + e@),
            Event::Status(code) => if code == 200 {
                r.0 is Accepted && r.1 is ReadJson
            } else if code == 404 {
                r.0 is Done && (r.1 matches Action::Finish(Err(told)) && told@ == "记忆ID "@
                    + request.memory_id@ + " 不存在，请确认ID是否正确"@)
            } else {
                r.0 == Phase::Refused(code) && r.1 is ReadText
            },
            Event::Text(text) => r.0 is Done && (phase matches Phase::Refused(code) && (
            r.1 matches Action::Finish(Err(told)) && told@ == "操作失败 (HTTP "@ + shown_status(
                code,
            ) + "): "@ + (match text {
                Some(t) => t@,
                None => Seq::empty(),
            }))),
            Event::Json(Err(e)) => r.0 is Done && (r.1 matches Action::Finish(Err(told)) && told@
                == "解析响应失败: "@ + e@),
            Event::Json(Ok(_)) => r.0 is Done && r.1 is Finish,
        },
{
}

/// What the model is told at the end of a change is what it is told of the answer.
pub proof fn law_change_ends_with_the_answer(
    request: &FeedbackRequest,
    response: FeedbackResponse,
    r: (Phase, Action),
    answer: Result<String, String>,
)
    requires
        call_ensures(
            correct_memory_step,
            (request, Phase::Accepted, Event::Json(Ok::<FeedbackResponse, String>(response))),
            r,
        ),
        call_ensures(answer_feedback, (request, response), answer),
    ensures
        match (r.1, answer) {
            (Action::Finish(Ok(told)), Ok(said)) => told@ == said@,
            (Action::Finish(Err(told)), Err(said)) => told@ == said@,
            _ => false,
        },
{
}

/// What the model is told of a change that was carried out is the change that it
/// asked for: a correction is told as one, a supplement as one, and a deletion as
/// one, with the memory that was named.
pub proof fn law_change_is_told_as_asked_for(
    memory_id: String,
    action: String,
    new_content: Option<String>,
    reason: Option<String>,
    base_url: Option<String>,
    user_id: Option<String>,
    post: Post<FeedbackRequest>,
    response: FeedbackResponse,
    answer: Result<String, String>,
)
    requires
        call_ensures(
            correct_memory,
            (memory_id, action, new_content, reason, base_url, user_id),
            Ok::<Post<FeedbackRequest>, String>(post),
        ),
        vstd::utf8::is_ascii_chars(trimmed(action@)),
        call_ensures(answer_feedback, (&post.body, response), answer),
        response.status@ == "success"@,
    ensures
        answer is Ok,
        ({
            let kind = ascii_lowercase(trimmed(action@));
            let told = answer.unwrap()@;
            &&& kind == "correct"@ ==> ("已成功修正\nID: "@ + memory_id@).is_prefix_of(told)
            &&& kind == "supplement"@ ==> ("已成功补充\nID: "@ + memory_id@).is_prefix_of(told)
            &&& kind == "delete"@ ==> told == "记忆成功删除，ID: "@ + memory_id@
        }),
{
    law_sent_change_is_the_one_asked_for(
        memory_id,
        action,
        new_content,
        reason,
        base_url,
        user_id,
        post,
    );
    law_answer_feedback(&post.body, response, answer);
    lemma_kinds_differ();
    reveal_strlit("已成功修正");
    reveal_strlit("已成功补充");
    reveal_strlit("\nID: ");
    reveal_strlit("已成功修正\nID: ");
    reveal_strlit("已成功补充\nID: ");
    assert("已成功修正\nID: "@ =~= "已成功修正"@ + "\nID: "@);
    assert("已成功补充\nID: "@ =~= "已成功补充"@ + "\nID: "@);
    let kind = ascii_lowercase(trimmed(action@));
    let told = answer.unwrap()@;
    let a = "已成功修正\nID: "@ + memory_id@;
    let b = "已成功补充\nID: "@ + memory_id@;
    if kind == "correct"@ {
        assert(told.subrange(0, a.len() as int) =~= a);
    } else if kind == "supplement"@ {
        assert(told.subrange(0, b.len() as int) =~= b);
    }
}

} // verus!
