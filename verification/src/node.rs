//! The node of the graph that looks for memories before the model is called.
use crate::exchange::{Post, PostView};
use crate::inject::{fresh_entries, inject, injection, seen_entries};
use crate::json::Json;
use crate::memory::{SearchMessageView, SearchRequest, SearchRequestView, SearchResponse};
use crate::search::{plan_search, search_plan};
use crate::status::{is_status, is_success, shown_status, status_text, success};
use crate::text::{followed_by, opt_text};
use crate::window::window_start;
use vstd::prelude::*;

verus! {

/// The messages of the conversation: the list under `messages`, or none.
pub open spec fn messages_of(input: Json) -> Seq<Json> {
    match input.spec_get("messages"@) {
        Some(value) => match value.elements() {
            Some(messages) => messages,
            None => Seq::empty(),
        },
        None => Seq::empty(),
    }
}

/// The text of the last message, which is empty where there is none.
pub open spec fn last_text(messages: Seq<Json>) -> Seq<char> {
    if messages.len() == 0 {
        Seq::empty()
    } else {
        match messages.last().text_at("content"@) {
            Some(text) => text,
            None => Seq::empty(),
        }
    }
}

fn find_messages(input: &Json) -> (r: Option<&Vec<Json>>)
    ensures
        match r {
            Some(messages) => messages@ == messages_of(*input),
            None => messages_of(*input) == Seq::<Json>::empty(),
        },
{
    match input.get("messages") {
        Some(value) => value.as_array(),
        None => None,
    }
}

/// The text of the last message of the conversation.
pub fn last_user_message(input: &Json) -> (r: String)
    ensures
        r@ == last_text(messages_of(*input)),
{
    if let Some(messages) = find_messages(input) {
        let n: usize = messages.len();
        if n > 0 {
            if let Some(text) = messages[n - 1].str_at("content") {
                return text.to_owned();
            }
        }
    }
    String::new()
}

/// What the node does first.
#[derive(Debug)]
pub enum Start {
    /// There is nothing to look for.
    Skip,
    /// The node fails, for the reason given.
    Fail(String),
    /// Send this search.
    Send(Post<SearchRequest>),
}

/// What the node does first, over its characters.
pub enum StartView {
    Skip,
    Fail(Seq<char>),
    Send(PostView<SearchRequestView>),
}

impl View for Start {
    type V = StartView;

    open spec fn view(&self) -> StartView {
        match self {
            Start::Skip => StartView::Skip,
            Start::Fail(text) => StartView::Fail(text@),
            Start::Send(post) => StartView::Send(post@),
        }
    }
}

/// What the node does first with a conversation that ends in `text`.
pub open spec fn first_step(
    text: Seq<char>,
    base_url: Option<String>,
    user_id: Option<String>,
) -> StartView {
    if text.len() == 0 {
        StartView::Skip
    } else {
        match search_plan(text, 5, 4, base_url, user_id) {
            Ok(post) => StartView::Send(post),
            Err(reason) => StartView::Fail(reason),
        }
    }
}

/// What the node does first: it looks for five memories at most, with a similarity
/// of four tenths at least to the last message, unless that message is empty.
pub fn search_memories(input: &Json, base_url: Option<String>, user_id: Option<String>) -> (r:
    Start)
    ensures
        r@ == first_step(last_text(messages_of(*input)), base_url, user_id),
{
    let query = last_user_message(input);
    if query.as_str().is_empty() {
        return Start::Skip;
    }
    match plan_search(query, 5, 4, base_url, user_id) {
        Ok(post) => Start::Send(post),
        Err(reason) => Start::Fail(reason),
    }
}

/// What happened to the search. The errors stay with the one who met them.
#[derive(Debug)]
pub enum NodeEvent {
    /// The search could not be sent.
    SendFailed,
    /// A reply with this status came.
    Status(u16),
    /// The reply was read as a value, or could not be.
    Json(Option<SearchResponse>),
}

/// What the node does next.
#[derive(Debug)]
pub enum NodeAction {
    /// The node fails with the error that was met.
    Propagate,
    /// Read the reply as a value.
    ReadJson,
    /// The node is done. `warning` is for whoever watches the program, and `block`
    /// is the message to add to the conversation.
    Finish { warning: Option<String>, block: Option<String> },
}

/// What the node does next, over its characters.
pub enum NodeActionView {
    Propagate,
    ReadJson,
    Finish { warning: Option<Seq<char>>, block: Option<Seq<char>> },
}

impl View for NodeAction {
    type V = NodeActionView;

    open spec fn view(&self) -> NodeActionView {
        match self {
            NodeAction::Propagate => NodeActionView::Propagate,
            NodeAction::ReadJson => NodeActionView::ReadJson,
            NodeAction::Finish { warning, block } => NodeActionView::Finish {
                warning: opt_text(*warning),
                block: opt_text(*block),
            },
        }
    }
}

/// The texts of the memories that were found, whole as they are.
pub open spec fn contents(memories: Seq<SearchMessageView>) -> Seq<Seq<char>> {
    memories.map_values(|m: SearchMessageView| m.content)
}

/// What is said of a search that was refused.
pub open spec fn refused_search(status: Seq<char>) -> Seq<char> {
    "搜索失败，状态码: "@ + status
}

/// What the node does next. A refused search found nothing.
pub open spec fn node_next(
    messages: Seq<Json>,
    window: nat,
    event: NodeEvent,
) -> NodeActionView {
    match event {
        NodeEvent::SendFailed => NodeActionView::Propagate,
        NodeEvent::Status(code) => if is_success(code) {
            NodeActionView::ReadJson
        } else {
            NodeActionView::Finish {
                warning: Some(refused_search(shown_status(code))),
                block: injection(messages, window, Seq::empty()),
            }
        },
        NodeEvent::Json(None) => NodeActionView::Propagate,
        NodeEvent::Json(Some(response)) => NodeActionView::Finish {
            warning: None,
            block: injection(messages, window, contents(response@)),
        },
    }
}

/// The texts of the memories that were found.
pub fn contents_of(response: &SearchResponse) -> (r: Vec<String>)
    ensures
        r.deep_view() == contents(response@),
{
    let mut r: Vec<String> = Vec::new();
    let mut i: usize = 0;
    while i < response.memories.len()
        invariant
            i <= response.memories.len(),
            r.len() == i,
            forall|k: int| 0 <= k < i ==> #[trigger] r.deep_view()[k] == response@[k].content,
        decreases response.memories.len() - i,
    {
        let ghost before = r.deep_view();
        r.push(response.memories[i].content.clone());
        assert(r.deep_view() =~= before.push(response@[i as int].content));
        i += 1;
    }
    assert(r.deep_view() =~= contents(response@));
    r
}

fn inject_into(input: &Json, window: usize, found: &Vec<String>) -> (r: Option<String>)
    ensures
        opt_text(r) == injection(messages_of(*input), window as nat, found.deep_view()),
{
    match find_messages(input) {
        Some(messages) => inject(messages, window, found),
        None => {
            let none: Vec<Json> = Vec::new();
            assert(none@ =~= Seq::<Json>::empty());
            inject(&none, window, found)
        },
    }
}

/// What is said of a search that was refused.
pub fn warn_refused(status: &str) -> (r: String)
    ensures
        r@ == refused_search(status@),
{
    followed_by("搜索失败，状态码: ", status)
}

/// What the node does next.
pub fn search_memories_step(input: &Json, window: usize, event: NodeEvent) -> (r: NodeAction)
    requires
        event matches NodeEvent::Status(code) ==> is_status(code),
    ensures
        r@ == node_next(messages_of(*input), window as nat, event),
{
    match event {
        NodeEvent::SendFailed => NodeAction::Propagate,
        NodeEvent::Status(code) => {
            if success(code) {
                NodeAction::ReadJson
            } else {
                let status = status_text(code);
                let warning = Some(warn_refused(status.as_str()));
                let found: Vec<String> = Vec::new();
                assert(found.deep_view() =~= Seq::empty());
                let block = inject_into(input, window, &found);
                NodeAction::Finish { warning, block }
            }
        },
        NodeEvent::Json(None) => NodeAction::Propagate,
        NodeEvent::Json(Some(response)) => {
            let found = contents_of(&response);
            let block = inject_into(input, window, &found);
            NodeAction::Finish { warning: None, block }
        },
    }
}

/// A refused search leaves the conversation as it is.
pub proof fn law_refused_search_brings_nothing(messages: Seq<Json>, window: nat, code: u16)
    requires
        !is_success(code),
    ensures
        node_next(messages, window, NodeEvent::Status(code)) matches NodeActionView::Finish {
            block,
            ..
        } && block is None,
{
    let seen = seen_entries(messages, window_start(messages, window) as int);
    assert(fresh_entries(Seq::empty(), seen).len() == 0);
}

/// The text that is searched for is the content of the last message, whoever it is
/// from, to the letter; it is empty where there is no such text.
pub proof fn law_last_user_message(input: &Json, key: &str, under: Option<&Json>, r: String)
    requires
        key@ == "messages"@,
        call_ensures(Json::get, (input, key), under),
        call_ensures(last_user_message, (input,), r),
    ensures
        match under {
            Some(Json::List(list)) => if list@.len() > 0 && list@.last().text_at(
                "content"@,
            ) is Some {
                r@ == list@.last().text_at("content"@).unwrap()
            } else {
                r@.len() == 0
            },
            _ => r@.len() == 0,
        },
{
}

/// The node looks for five memories, with a similarity of four tenths, on the last
/// message to the letter and for the user that is set. It does nothing on an empty
/// text and fails without an address.
pub proof fn law_search_memories(
    input: &Json,
    base_url: Option<String>,
    user_id: Option<String>,
    text: String,
    r: Start,
)
    requires
        call_ensures(last_user_message, (input,), text),
        call_ensures(search_memories, (input, base_url, user_id), r),
    ensures
        text@.len() == 0 <==> r is Skip,
        text@.len() > 0 && base_url is None ==> (r matches Start::Fail(reason) && reason@
            == "MEMOS_BASE_URL not set"@),
        text@.len() > 0 && base_url is Some ==> (r matches Start::Send(post) && {
            &&& post.url@ == base_url.unwrap()@ + "/search"@
            &&& post.timeout_secs == 3
            &&& post.body.query@ == text@
            &&& post.body.top_k == 5
            &&& post.body.similarity_tenths == 4
            &&& post.body.user_id@ == (match user_id {
                Some(id) => id@,
                None => "default"@,
            })
        }),
{
    if let Start::Send(post) = r {
        assert(post.body@ == post@.body);
    }
}

/// What is brought into the conversation is looked for among whole memories: the
/// texts of all that were found, in order and to the letter.
pub proof fn law_contents_of(response: &SearchResponse, r: Vec<String>)
    requires
        call_ensures(contents_of, (response,), r),
    ensures
        r@.len() == response.memories@.len(),
        forall|k: int|
            0 <= k < r@.len() ==> (#[trigger] r@[k])@ == response.memories@[k].content@,
{
    assert(r.deep_view().len() == r@.len());
    assert forall|k: int| 0 <= k < r@.len() implies (#[trigger] r@[k])@
        == response.memories@[k].content@ by {
        assert(r.deep_view()[k] == r@[k]@);
        assert(contents(response@)[k] == response@[k].content);
    }
}

/// What the node does next: an error is handed on, a status from 200 to 299 has the
/// reply read, and any other status is warned of and brings nothing.
pub proof fn law_search_memories_step(input: &Json, window: usize, event: NodeEvent, r: NodeAction)
    requires
        event matches NodeEvent::Status(code) ==> is_status(code),
        call_ensures(search_memories_step, (input, window, event), r),
    ensures
        match event {
            NodeEvent::SendFailed => r is Propagate,
            NodeEvent::Status(code) => if 200 <= code <= 299 {
                r is ReadJson
            } else {
                r matches NodeAction::Finish { warning, block } && block is None && warning is Some
                    && warning.unwrap()@ == "搜索失败，状态码: "@ + shown_status(code)
            },
            NodeEvent::Json(None) => r is Propagate,
            NodeEvent::Json(Some(_)) => r matches NodeAction::Finish { warning, .. }
                && warning is None,
        },
{
    if let NodeEvent::Status(code) = event {
        if !(200 <= code <= 299) {
            law_refused_search_brings_nothing(messages_of(*input), window as nat, code);
        }
    }
}

/// What the node brings into the conversation is the block for the texts of the
/// memories that were found, given the messages that are there.
pub proof fn law_node_brings_what_was_found(
    input: &Json,
    key: &str,
    under: Option<&Json>,
    messages: &Vec<Json>,
    window: usize,
    response: SearchResponse,
    found: &Vec<String>,
    block: Option<String>,
    r: NodeAction,
)
    requires
        key@ == "messages"@,
        call_ensures(Json::get, (input, key), under),
        match under {
            Some(Json::List(list)) => messages@ == list@,
            _ => messages@.len() == 0,
        },
        found@.len() == response.memories@.len(),
        forall|k: int|
            0 <= k < found@.len() ==> (#[trigger] found@[k])@ == response.memories@[k].content@,
        call_ensures(inject, (messages, window, found), block),
        call_ensures(
            search_memories_step,
            (input, window, NodeEvent::Json(Some(response))),
            r,
        ),
    ensures
        r matches NodeAction::Finish { block: brought, .. } && opt_text(brought) == opt_text(block),
{
    assert(messages@ =~= messages_of(*input));
    assert forall|k: int| 0 <= k < found@.len() implies #[trigger] found.deep_view()[k]
        == contents(response@)[k] by {
        assert(found.deep_view()[k] == found@[k]@);
        assert(contents(response@)[k] == response@[k].content);
    }
    assert(found.deep_view() =~= contents(response@));
}

} // verus!
