use memory_agent::exchange::{Action, Event, Phase};
use memory_agent::feedback::{
    answer_feedback, correct_memory, correct_memory_step, plan_feedback, refuse_feedback,
};
use memory_agent::memory::{FeedbackRequest, FeedbackResponse, SearchMessage, SearchResponse};
use memory_agent::remember::{add_memory, add_memory_step, refuse_add};
use memory_agent::search::{
    list, list_with, plan_search, refuse_search, report_memories, search_memory,
    search_memory_step, write_report,
};
use memory_agent::status::success;

fn text(s: &str) -> Option<String> {
    Some(s.to_string())
}

fn outcome(action: Action) -> Result<String, String> {
    match action {
        Action::Finish(outcome) => outcome,
        other => panic!("not finished: {:?}", other),
    }
}

fn memory(content: &str) -> SearchMessage {
    SearchMessage {
        id: None,
        content: content.to_string(),
        created_at: None,
        updated_at: None,
    }
}

#[test]
fn a_search_is_sent_for_the_user() {
    let post = search_memory("茶".to_string(), text("http://m"), text("u1")).unwrap();
    assert_eq!(post.url, "http://m/search");
    assert_eq!(post.timeout_secs, 3);
    assert_eq!(post.body.query, "茶");
    assert_eq!(post.body.user_id, "u1");
    assert_eq!(post.body.top_k, 3);
    assert_eq!(post.body.similarity_tenths, 5);
    let post = plan_search("q".to_string(), 5, 4, text("b"), None).unwrap();
    assert_eq!(post.body.user_id, "default");
    assert_eq!(post.body.top_k, 5);
    assert_eq!(post.body.similarity_tenths, 4);
}

#[test]
fn without_an_address_nothing_is_sent() {
    let e = "MEMOS_BASE_URL not set".to_string();
    assert_eq!(search_memory("q".to_string(), None, None).unwrap_err(), e);
    assert_eq!(add_memory("c".to_string(), None, None).unwrap_err(), e);
    let r = correct_memory("7".to_string(), "delete".to_string(), None, None, None, None);
    assert_eq!(r.unwrap_err(), e);
}

#[test]
fn a_memory_is_listed_with_its_day_and_its_id() {
    let mut m = memory("喜欢茶");
    assert_eq!(list(&m), "喜欢茶");
    m.created_at = text("2026-07-11T08:30:00Z");
    assert_eq!(list(&m), "喜欢茶 [2026年07月11日]");
    m.updated_at = text("2026-07-11T08:30:00Z");
    assert_eq!(list(&m), "喜欢茶 [2026年07月11日]");
    m.updated_at = text("2026-07-12T08:30:00Z");
    m.id = text("");
    assert_eq!(list(&m), "喜欢茶 [2026年07月11日] (已更新)");
    m.id = text("a7");
    assert_eq!(list(&m), "喜欢茶 [2026年07月11日] (已更新) [ID: a7]");
    m.created_at = None;
    assert_eq!(list(&m), "喜欢茶 (已更新) [ID: a7]");
    assert_eq!(list_with(&m, text("今天")), "喜欢茶 [今天] (已更新) [ID: a7]");
}

#[test]
fn a_search_reports_what_was_found() {
    let none = SearchResponse { memories: vec![] };
    assert_eq!(report_memories("茶", &none), "没有与茶相关的记忆");
    let mut second = memory("b");
    second.id = text("2");
    let two = SearchResponse { memories: vec![memory("a"), second] };
    assert_eq!(report_memories("茶", &two), "相关记忆:\na\nb [ID: 2]");
    assert_eq!(write_report("q", &vec!["x".to_string()]), "相关记忆:\nx");
}

#[test]
fn a_search_goes_through_its_phases() {
    let (phase, action) = search_memory_step("茶", Phase::Sent, Event::Status(204));
    assert_eq!(phase, Phase::Accepted);
    assert!(matches!(action, Action::ReadJson));
    let response = SearchResponse { memories: vec![memory("a")] };
    let (phase, action) = search_memory_step("茶", phase, Event::Json(Ok(response)));
    assert_eq!(phase, Phase::Done);
    assert_eq!(outcome(action), Ok("相关记忆:\na".to_string()));

    let (phase, action) = search_memory_step("茶", Phase::Sent, Event::Status(503));
    assert_eq!(phase, Phase::Refused(503));
    assert!(matches!(action, Action::ReadText));
    let (phase, action) = search_memory_step("茶", phase, Event::Text(text("忙")));
    assert_eq!(phase, Phase::Done);
    assert_eq!(
        outcome(action),
        Err("搜索失败 (HTTP 503 Service Unavailable): 忙".to_string())
    );
}

#[test]
fn a_search_that_cannot_be_sent_or_read() {
    let e = Event::SendFailed("超时".to_string());
    let (phase, action) = search_memory_step("茶", Phase::Sent, e);
    assert_eq!(phase, Phase::Done);
    assert_eq!(outcome(action), Err("请求失败: 超时".to_string()));
    let e = Event::Json(Err("eof".to_string()));
    let (_, action) = search_memory_step("茶", Phase::Accepted, e);
    assert_eq!(outcome(action), Err("解析失败: eof".to_string()));
    let (_, action) = search_memory_step("茶", Phase::Refused(599), Event::Text(None));
    assert_eq!(
        outcome(action),
        Err("搜索失败 (HTTP 599 <unknown status code>): ".to_string())
    );
    assert_eq!(refuse_search("a", "b"), "搜索失败 (HTTP a): b");
}

#[test]
fn which_status_is_success() {
    assert!(!success(199));
    assert!(success(200));
    assert!(success(299));
    assert!(!success(300));
}

#[test]
fn a_change_is_checked_before_it_is_sent() {
    let change = |id: &str, action: &str, content: Option<String>| {
        correct_memory(id.to_string(), action.to_string(), content, None, text("http://m"), None)
    };
    assert_eq!(
        change("", "delete", None).unwrap_err(),
        "错误，未提供记忆id。请先通过search_memory获取id"
    );
    assert_eq!(
        change("7", "remove", None).unwrap_err(),
        "错误：未指定操作类型。可选：correct、supplement、delete"
    );
    assert_eq!(
        change("7", "", text("x")).unwrap_err(),
        "错误：未指定操作类型。可选：correct、supplement、delete"
    );
    assert_eq!(change("7", " Correct", None).unwrap_err(), "错误：correct 必须提供 new_content");
    assert_eq!(
        change("7", "SUPPLEMENT\n", text("")).unwrap_err(),
        "错误：supplement 必须提供 new_content"
    );
}

#[test]
fn a_change_is_sent_with_what_it_needs() {
    let post = correct_memory(
        "7".to_string(),
        "  CORRECT ".to_string(),
        text("新"),
        text("旧的错了"),
        text("http://m"),
        text("u"),
    )
    .unwrap();
    assert_eq!(post.url, "http://m/memory/feedback");
    assert_eq!(post.timeout_secs, 10);
    assert_eq!(post.body.memory_id, "7");
    assert_eq!(post.body.feedback_type, "correct");
    assert_eq!(post.body.reason, "旧的错了");
    assert_eq!(post.body.user_id, "u");
    assert_eq!(post.body.correction, text("新"));
    let post = plan_feedback(
        "7".to_string(),
        "delete".to_string(),
        text("不用"),
        None,
        text("http://m"),
        None,
    )
    .unwrap();
    assert_eq!(post.body.correction, None);
    assert_eq!(post.body.reason, "");
    assert_eq!(post.body.user_id, "default");
}

fn request(kind: &str, correction: Option<String>) -> FeedbackRequest {
    FeedbackRequest {
        memory_id: "7".to_string(),
        feedback_type: kind.to_string(),
        reason: String::new(),
        user_id: "u".to_string(),
        correction,
    }
}

fn response(status: &str, new_content: Option<String>, message: Option<String>) -> FeedbackResponse {
    FeedbackResponse { status: status.to_string(), new_content, message }
}

#[test]
fn a_change_is_answered() {
    let correct = request("correct", text("新"));
    let supplement = request("supplement", text("补"));
    let delete = request("delete", None);
    assert_eq!(
        answer_feedback(&correct, response("success", None, None)),
        Ok("已成功修正\nID: 7\n新内容: 新".to_string())
    );
    assert_eq!(
        answer_feedback(&supplement, response("success", text("旧补"), None)),
        Ok("已成功补充\nID: 7\n新内容: 旧补".to_string())
    );
    assert_eq!(
        answer_feedback(&delete, response("success", None, None)),
        Ok("记忆成功删除，ID: 7".to_string())
    );
    assert_eq!(
        answer_feedback(&delete, response("error", None, None)),
        Err("操作失败：未知错误".to_string())
    );
    assert_eq!(
        answer_feedback(&correct, response("error", None, text("锁定"))),
        Err("操作失败：锁定".to_string())
    );
}

#[test]
fn a_change_goes_through_its_phases() {
    let delete = request("delete", None);
    let (phase, action) = correct_memory_step(&delete, Phase::Sent, Event::Status(200));
    assert_eq!(phase, Phase::Accepted);
    assert!(matches!(action, Action::ReadJson));
    let e = Event::Json(Ok(response("success", None, None)));
    let (phase, action) = correct_memory_step(&delete, phase, e);
    assert_eq!(phase, Phase::Done);
    assert_eq!(outcome(action), Ok("记忆成功删除，ID: 7".to_string()));
    let e = Event::Json(Err("eof".to_string()));
    let (_, action) = correct_memory_step(&delete, Phase::Accepted, e);
    assert_eq!(outcome(action), Err("解析响应失败: eof".to_string()));

    let (phase, action) = correct_memory_step(&delete, Phase::Sent, Event::Status(404));
    assert_eq!(phase, Phase::Done);
    assert_eq!(
        outcome(action),
        Err("记忆ID 7 不存在，请确认ID是否正确".to_string())
    );
    let (phase, _) = correct_memory_step(&delete, Phase::Sent, Event::Status(201));
    assert_eq!(phase, Phase::Refused(201));
    let (_, action) = correct_memory_step(&delete, phase, Event::Text(text("x")));
    assert_eq!(outcome(action), Err("操作失败 (HTTP 201 Created): x".to_string()));
    let e = Event::SendFailed("断".to_string());
    let (_, action) = correct_memory_step(&delete, Phase::Sent, e);
    assert_eq!(outcome(action), Err("请求失败: 断".to_string()));
    assert_eq!(refuse_feedback("a", "b"), "操作失败 (HTTP a): b");
}

#[test]
fn something_is_remembered() {
    let post = add_memory("爱喝茶".to_string(), text("http://m"), None).unwrap();
    assert_eq!(post.url, "http://m/add");
    assert_eq!(post.timeout_secs, 3);
    assert_eq!(post.body.user_id, "default");
    assert_eq!(post.body.messages.len(), 1);
    assert_eq!(post.body.messages[0].role, "user");
    assert_eq!(post.body.messages[0].content, "爱喝茶");

    let (phase, action) = add_memory_step("爱喝茶", Phase::Sent, Event::Status(200));
    assert_eq!(phase, Phase::Done);
    assert_eq!(outcome(action), Ok("已成功记住爱喝茶".to_string()));
    let (phase, action) = add_memory_step("爱喝茶", Phase::Sent, Event::Status(500));
    assert_eq!(phase, Phase::Refused(500));
    assert!(matches!(action, Action::ReadText));
    let (_, action) = add_memory_step("爱喝茶", phase, Event::Text(text("坏了")));
    assert_eq!(
        outcome(action),
        Err("出现错误，状态码：500 Internal Server Error，具体信息：坏了".to_string())
    );
    let e = Event::SendFailed("断".to_string());
    let (_, action) = add_memory_step("爱喝茶", Phase::Sent, e);
    assert_eq!(outcome(action), Err("请求失败: 断".to_string()));
    assert_eq!(refuse_add("a", "b"), "出现错误，状态码：a，具体信息：b");
}
