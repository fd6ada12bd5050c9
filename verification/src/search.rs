//! The search among the memories that the model asks for.
use crate::date::{parse_time_to_chinese_date, rfc3339_utc_day, time_text};
use crate::exchange::{
    consistent, fits, or_empty, planned, refused_status, text_or_empty, user_id_or_default,
    user_or_default, Action, ActionView, Event, Phase, Post, PostView,
};
use crate::memory::{
    SearchMessage, SearchMessageView, SearchRequest, SearchRequestView, SearchResponse,
};
use crate::status::{is_success, shown_status, status_text, success};
use crate::text::{followed_by, join, joined, opt_text, same_text};
use vstd::prelude::*;

verus! {

/// The search to send, if it is known where to.
pub open spec fn search_plan(
    query: Seq<char>,
    top_k: u8,
    similarity_tenths: u8,
    base_url: Option<String>,
    user_id: Option<String>,
) -> Result<PostView<SearchRequestView>, Seq<char>> {
    match base_url {
        None => Err("MEMOS_BASE_URL not set"@),
        Some(base) => Ok(
            PostView {
                url: base@ + "/search"@,
                timeout_secs: 3,
                body: SearchRequestView {
                    user_id: user_or_default(user_id),
                    query,
                    top_k,
                    similarity_tenths,
                },
            },
        ),
    }
}

/// The search to send, if it is known where to.
pub fn plan_search(
    query: String,
    top_k: u8,
    similarity_tenths: u8,
    base_url: Option<String>,
    user_id: Option<String>,
) -> (r: Result<Post<SearchRequest>, String>)
    ensures
        planned(r) == search_plan(query@, top_k, similarity_tenths, base_url, user_id),
{
    match base_url {
        None => Err("MEMOS_BASE_URL not set".to_owned()),
        Some(base) => {
            let url = followed_by(base.as_str(), "/search");
            let user_id = user_id_or_default(user_id);
            let body = SearchRequest { user_id, query, top_k, similarity_tenths };
            Ok(Post { url, timeout_secs: 3, body })
        },
    }
}

/// The search that the model asks for: three memories at most, with a similarity
/// of one half at least.
pub fn search_memory(query: String, base_url: Option<String>, user_id: Option<String>) -> (r:
    Result<Post<SearchRequest>, String>)
    ensures
        planned(r) == search_plan(query@, 3, 5, base_url, user_id),
{
    plan_search(query, 3, 5, base_url, user_id)
}

/// Whether a memory was changed after it was made.
pub open spec fn was_updated(memory: SearchMessageView) -> bool {
    memory.updated_at is Some && memory.updated_at != memory.created_at
}

/// One memory as it is listed, with `date` as the day on which it was made.
pub open spec fn listed_with(memory: SearchMessageView, date: Option<Seq<char>>) -> Seq<char> {
    memory.content + (match date {
        Some(d) => " ["@ + d + "]"@,
        None => Seq::empty(),
    }) + (if was_updated(memory) {
        " (已更新)"@
    } else {
        Seq::empty()
    }) + (match memory.id {
        Some(id) => if id.len() > 0 {
            " [ID: "@ + id + "]"@
        } else {
            Seq::empty()
        },
        None => Seq::empty(),
    })
}

/// The day that is shown for a memory.
pub open spec fn shown_date(memory: SearchMessageView) -> Option<Seq<char>> {
    match memory.created_at {
        Some(t) => Some(time_text(rfc3339_utc_day(t), t)),
        None => None,
    }
}

/// One memory as it is listed.
pub open spec fn listed(memory: SearchMessageView) -> Seq<char> {
    listed_with(memory, shown_date(memory))
}

fn same_time(a: &Option<String>, b: &str) -> (r: bool)
    ensures
        r == (opt_text(*a) == Some(b@)),
{
    match a {
        Some(t) => same_text(t.as_str(), b),
        None => false,
    }
}

/// One memory as it is listed, with `date` as the day on which it was made.
pub fn list_with(memory: &SearchMessage, date: Option<String>) -> (r: String)
    ensures
        r@ == listed_with(memory@, opt_text(date)),
{
    let mut line = memory.content.clone();
    let ghost s0 = line@;
    if let Some(d) = &date {
        line.append(" [");
        line.append(d.as_str());
        line.append("]");
        assert(line@ =~= s0 + (" ["@ + d@ + "]"@));
    }
    let ghost s1 = line@;
    assert(s1 =~= s0 + (match opt_text(date) {
        Some(d) => " ["@ + d + "]"@,
        None => Seq::empty(),
    }));
    if let Some(updated) = &memory.updated_at {
        if !same_time(&memory.created_at, updated.as_str()) {
            line.append(" (已更新)");
        }
    }
    let ghost s2 = line@;
    assert(s2 =~= s1 + (if was_updated(memory@) {
        " (已更新)"@
    } else {
        Seq::empty()
    }));
    if let Some(id) = &memory.id {
        if !id.as_str().is_empty() {
            line.append(" [ID: ");
            line.append(id.as_str());
            line.append("]");
            assert(line@ =~= s2 + (" [ID: "@ + id@ + "]"@));
        }
    }
    line
}

/// One memory as it is listed.
pub fn list(memory: &SearchMessage) -> (r: String)
    ensures
        r@ == listed(memory@),
{
    let date = match &memory.created_at {
        Some(t) => Some(parse_time_to_chinese_date(t.as_str())),
        None => None,
    };
    list_with(memory, date)
}

/// What the model is told, given the lines for the memories that were found.
pub open spec fn report_of(query: Seq<char>, found: Seq<Seq<char>>) -> Seq<char> {
    if found.len() == 0 {
        "没有与"@ + query + "相关的记忆"@
    } else {
        "相关记忆:\n"@ + joined(found, "\n"@)
    }
}

/// What the model is told of the memories that were found.
pub open spec fn report(query: Seq<char>, memories: Seq<SearchMessageView>) -> Seq<char> {
    report_of(query, memories.map_values(|m: SearchMessageView| listed(m)))
}

/// What the model is told, given the lines for the memories that were found.
pub fn write_report(query: &str, found: &Vec<String>) -> (r: String)
    ensures
        r@ == report_of(query@, found.deep_view()),
{
    if found.len() == 0 {
        let mut r = "没有与".to_owned();
        r.append(query);
        r.append("相关的记忆");
        r
    } else {
        let body = join(found, "\n");
        followed_by("相关记忆:\n", body.as_str())
    }
}

/// What the model is told of the memories that were found.
pub fn report_memories(query: &str, response: &SearchResponse) -> (r: String)
    ensures
        r@ == report(query@, response@),
{
    let mut found: Vec<String> = Vec::new();
    let mut i: usize = 0;
    while i < response.memories.len()
        invariant
            i <= response.memories.len(),
            found.len() == i,
            forall|k: int| 0 <= k < i ==> #[trigger] found.deep_view()[k] == listed(response@[k]),
        decreases response.memories.len() - i,
    {
        let ghost before = found.deep_view();
        found.push(list(&response.memories[i]));
        assert(found.deep_view() =~= before.push(listed(response@[i as int])));
        i += 1;
    }
    assert(found.deep_view() =~= response@.map_values(|m: SearchMessageView| listed(m)));
    write_report(query, &found)
}

/// What the model is told of a refused search.
pub open spec fn search_refusal(status: Seq<char>, body: Seq<char>) -> Seq<char> {
    "搜索失败 (HTTP "@ + status + "): "@ + body
}

/// What the model is told of a refused search.
pub fn refuse_search(status: &str, body: &str) -> (r: String)
    ensures
        r@ == search_refusal(status@, body@),
{
    let mut r = "搜索失败 (HTTP ".to_owned();
    r.append(status);
    r.append("): ");
    r.append(body);
    r
}

/// How the search goes on.
pub open spec fn search_next(query: Seq<char>, phase: Phase, event: Event<SearchResponse>) -> (
    Phase,
    ActionView,
) {
    match event {
        Event::SendFailed(e) => (Phase::Done, ActionView::Finish(Err("请求失败: "@ + e@))),
        Event::Status(code) => if is_success(code) {
            (Phase::Accepted, ActionView::ReadJson)
        } else {
            (Phase::Refused(code), ActionView::ReadText)
        },
        Event::Text(text) => (
            Phase::Done,
            ActionView::Finish(
                Err(search_refusal(shown_status(phase->Refused_0), text_or_empty(text))),
            ),
        ),
        Event::Json(Err(e)) => (Phase::Done, ActionView::Finish(Err("解析失败: "@ + e@))),
        Event::Json(Ok(response)) => (
            Phase::Done,
            ActionView::Finish(Ok(report(query, response@))),
        ),
    }
}

/// How the search goes on.
pub fn search_memory_step(query: &str, phase: Phase, event: Event<SearchResponse>) -> (r: (
    Phase,
    Action,
))
    requires
        fits(phase, event),
    ensures
        r.0 == search_next(query@, phase, event).0,
        r.1@ == search_next(query@, phase, event).1,
{
    match event {
        Event::SendFailed(e) => (
            Phase::Done,
            Action::Finish(Err(followed_by("请求失败: ", e.as_str()))),
        ),
        Event::Status(code) => {
            if success(code) {
                (Phase::Accepted, Action::ReadJson)
            } else {
                (Phase::Refused(code), Action::ReadText)
            }
        },
        Event::Text(text) => {
            let status = status_text(refused_status(phase));
            let body = or_empty(text);
            (Phase::Done, Action::Finish(Err(refuse_search(status.as_str(), body.as_str()))))
        },
        Event::Json(Err(e)) => (
            Phase::Done,
            Action::Finish(Err(followed_by("解析失败: ", e.as_str()))),
        ),
        Event::Json(Ok(response)) => (
            Phase::Done,
            Action::Finish(Ok(report_memories(query, &response))),
        ),
    }
}

/// A search comes to an end with the second event at the latest: what is done
/// after each event fits the phase that the search is in then, and once
/// something was read of the reply there is an outcome.
pub proof fn law_search_ends(query: Seq<char>, phase: Phase, event: Event<SearchResponse>)
    requires
        fits(phase, event),
    ensures
        consistent(search_next(query, phase, event).0, search_next(query, phase, event).1),
        phase != Phase::Sent ==> search_next(query, phase, event).0 == Phase::Done,
{
}

/// A listed memory begins with its text and ends with the ID by which it can be
/// corrected, where it has one.
pub proof fn law_listing_shows_text_and_id(memory: SearchMessageView)
    ensures
        memory.content.is_prefix_of(listed(memory)),
        memory.id matches Some(id) && id.len() > 0 ==> {
            let shown = " [ID: "@ + memory.id.unwrap() + "]"@;
            shown.is_suffix_of(listed(memory))
        },
{
    let line = listed(memory);
    assert(line.subrange(0, memory.content.len() as int) =~= memory.content);
    if memory.id is Some && memory.id.unwrap().len() > 0 {
        let shown = " [ID: "@ + memory.id.unwrap() + "]"@;
        assert(line.subrange(line.len() - shown.len(), line.len() as int) =~= shown);
    }
}

/// A search goes out with what it was asked for: the query to the letter, the two
/// limits, and the user that is set; it is refused only without an address.
pub proof fn law_plan_search(
    query: String,
    top_k: u8,
    similarity_tenths: u8,
    base_url: Option<String>,
    user_id: Option<String>,
    r: Result<Post<SearchRequest>, String>,
)
    requires
        call_ensures(plan_search, (query, top_k, similarity_tenths, base_url, user_id), r),
    ensures
        base_url is None ==> r is Err && r.unwrap_err()@ == "MEMOS_BASE_URL not set"@,
        base_url matches Some(base) ==> r is Ok && {
            let post = r.unwrap();
            &&& post.url@ == base@ + "/search"@
            &&& post.timeout_secs == 3
            &&& post.body.query@ == query@
            &&& post.body.top_k == top_k
            &&& post.body.similarity_tenths == similarity_tenths
            &&& post.body.user_id@ == (match user_id {
                Some(id) => id@,
                None => "default"@,
            })
        },
{
    if let Ok(post) = r {
        assert(post.body@ == post@.body);
    }
}

/// The search that the model asks for goes out with its query to the letter, for
/// the user that is set, for three memories and a similarity of five tenths.
pub proof fn law_search_memory(
    query: String,
    base_url: Option<String>,
    user_id: Option<String>,
    r: Result<Post<SearchRequest>, String>,
)
    requires
        call_ensures(search_memory, (query, base_url, user_id), r),
    ensures
        base_url is None ==> r is Err && r.unwrap_err()@ == "MEMOS_BASE_URL not set"@,
        base_url matches Some(base) ==> r is Ok && {
            let post = r.unwrap();
            &&& post.url@ == base@ + "/search"@
            &&& post.timeout_secs == 3
            &&& post.body.query@ == query@
            &&& post.body.top_k == 3
            &&& post.body.similarity_tenths == 5
            &&& post.body.user_id@ == (match user_id {
                Some(id) => id@,
                None => "default"@,
            })
        },
{
    if let Ok(post) = r {
        assert(post.body@ == post@.body);
    }
}

/// A listed memory is its text, the day in square brackets where there is one, the
/// mark of an update, and its ID where it has one that is not empty. The mark is
/// there if and only if there is a time of the update that is not, as a whole text,
/// the time at which the memory was made.
pub proof fn law_list_with(memory: &SearchMessage, date: Option<String>, r: String)
    requires
        call_ensures(list_with, (memory, date), r),
    ensures
        ({
            let day = match date {
                Some(d) => " ["@ + d@ + "]"@,
                None => Seq::empty(),
            };
            let id = if memory.id is Some && memory.id.unwrap()@.len() > 0 {
                " [ID: "@ + memory.id.unwrap()@ + "]"@
            } else {
                Seq::empty()
            };
            &&& memory.updated_at is None ==> r@ == memory.content@ + day + id
            &&& memory.updated_at matches Some(updated) ==> (match memory.created_at {
                Some(created) => if created@ == updated@ {
                    r@ == memory.content@ + day + id
                } else {
                    r@ == memory.content@ + day + " (已更新)"@ + id
                },
                None => r@ == memory.content@ + day + " (已更新)"@ + id,
            })
        }),
{
    let day = match date {
        Some(d) => " ["@ + d@ + "]"@,
        None => Seq::empty(),
    };
    assert(memory.content@ + day + Seq::<char>::empty() =~= memory.content@ + day);
}

/// The day that is listed with a memory is that of the time at which it was made,
/// and none is listed where that time is not known.
pub proof fn law_list(
    memory: &SearchMessage,
    created: &str,
    day: String,
    date: Option<String>,
    r: String,
    line: String,
)
    requires
        call_ensures(list, (memory,), r),
        call_ensures(parse_time_to_chinese_date, (created,), day),
        match memory.created_at {
            Some(time) => time@ == created@ && date == Some(day),
            None => date is None,
        },
        call_ensures(list_with, (memory, date), line),
    ensures
        r@ == line@,
{
}

/// What the model is told of the lines that were found: all of them in order, each
/// on its own line below a heading, or that there is nothing on its query.
pub proof fn law_write_report(query: &str, found: &Vec<String>, r: String)
    requires
        call_ensures(write_report, (query, found), r),
    ensures
        found@.len() == 0 ==> r@ == "没有与"@ + query@ + "相关的记忆"@,
        found@.len() > 0 ==> r@ == "相关记忆:\n"@ + joined(found.deep_view(), "\n"@),
{
    assert(found.deep_view().len() == found@.len());
}

/// Each memory of an answer is reported, in the order of the answer and as it is
/// listed by itself.
pub proof fn law_report_memories(
    query: &str,
    response: &SearchResponse,
    found: &Vec<String>,
    r: String,
    report: String,
)
    requires
        call_ensures(report_memories, (query, response), r),
        found@.len() == response.memories@.len(),
        forall|k: int|
            0 <= k < found@.len() ==> call_ensures(
                list,
                (&response.memories@[k],),
                #[trigger] found@[k],
            ),
        call_ensures(write_report, (query, found), report),
    ensures
        r@ == report@,
{
    let lines = response@.map_values(|m: SearchMessageView| listed(m));
    assert forall|k: int| 0 <= k < found@.len() implies #[trigger] found.deep_view()[k]
        == lines[k] by {
        assert(call_ensures(list, (&response.memories@[k],), found@[k]));
        assert(response@[k] == response.memories@[k]@);
    }
    assert(found.deep_view() =~= lines);
}

/// What a search comes to: a status from 200 to 299 has the reply read as an answer,
/// any other is told with the text of the reply. Each failure is told as what it
/// is, and an answer with the report on it.
pub proof fn law_search_memory_step(
    query: &str,
    phase: Phase,
    event: Event<SearchResponse>,
    r: (Phase, Action),
)
    requires
        fits(phase, event),
        call_ensures(search_memory_step, (query, phase, event), r),
    ensures
        match event {
            Event::SendFailed(e) => r.0 is Done && (r.1 matches Action::Finish(Err(told)) && told@
                == "请求失败: "@ + e@),
            Event::Status(code) => if 200 <= code <= 299 {
                r.0 is Accepted && r.1 is ReadJson
            } else {
                r.0 == Phase::Refused(code) && r.1 is ReadText
            },
            Event::Text(text) => r.0 is Done && (phase matches Phase::Refused(code) && (
            r.1 matches Action::Finish(Err(told)) && told@ == "搜索失败 (HTTP "@ + shown_status(
                code,
            ) + "): "@ + (match text {
                Some(t) => t@,
                None => Seq::empty(),
            }))),
            Event::Json(Err(e)) => r.0 is Done && (r.1 matches Action::Finish(Err(told)) && told@
                == "解析失败: "@ + e@),
            Event::Json(Ok(response)) => r.0 is Done && (r.1 matches Action::Finish(Ok(told)) && (
            forall|report: String|
                call_ensures(report_memories, (query, &response), report) ==> #[trigger] report@
                    == told@)),
        },
{
}

} // verus!
