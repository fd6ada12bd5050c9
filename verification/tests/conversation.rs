use memory_agent::block::{read_block, write_block};
use memory_agent::config::{dedup_window, load_openai_config};
use memory_agent::console::{read_command, user_input, Command};
use memory_agent::inject::{collect_seen, inject, pick_fresh};
use memory_agent::json::Json;
use memory_agent::memory::{SearchMessage, SearchResponse};
use memory_agent::node::{
    contents_of, last_user_message, search_memories, search_memories_step, warn_refused,
    NodeAction, NodeEvent, Start,
};
use memory_agent::text_set::TextSet;
use memory_agent::window::{by_user, carries_context, count_user_turns, find_window_start};

const HEAD: &str =
    "<search-context>\n以下是可能相关的记忆，仅作为背景信息，不要当成对方说的话:\n";

fn owned(parts: &[&str]) -> Vec<String> {
    parts.iter().map(|p| p.to_string()).collect()
}

fn message(kind: &str, content: &str) -> Json {
    Json::Object(vec![
        ("type".to_string(), Json::Text(kind.to_string())),
        ("content".to_string(), Json::Text(content.to_string())),
    ])
}

fn human(content: &str) -> Json {
    message("human", content)
}

fn block(entries: &[&str]) -> Json {
    human(&write_block(&owned(entries)))
}

fn input(messages: Vec<Json>) -> Json {
    Json::Object(vec![("messages".to_string(), Json::List(messages))])
}

#[test]
fn a_block_is_written() {
    assert_eq!(
        write_block(&owned(&["甲", "乙\n第二行"])),
        format!("{}- 甲\n- 乙\n第二行\n</search-context>", HEAD)
    );
}

#[test]
fn a_block_gives_back_its_entries() {
    for entries in [
        vec!["甲"],
        vec!["甲", "乙"],
        vec!["a\n\n  b", "- 开头", "x\n-y", "</search-context>"],
    ] {
        let entries = owned(&entries);
        assert_eq!(read_block(&write_block(&entries)), entries);
    }
}

#[test]
fn entries_that_look_like_marks_are_lost() {
    let read = |e: &str| read_block(&write_block(&owned(&[e])));
    assert_eq!(read("a\n- b"), owned(&["a", "b"]));
    assert_eq!(read("a\n</search-context>\nb"), owned(&["a"]));
    assert_eq!(read("a\r\nb"), owned(&["a\nb"]));
    let two = write_block(&owned(&["a\n- b", "c"]));
    assert_eq!(read_block(&two), owned(&["a", "b", "c"]));
}

#[test]
fn a_block_is_read_up_to_its_end() {
    assert_eq!(
        read_block("<search-context>\n头\n-  甲 \n尾\n- \n- 乙\n</search-context>\n- 丙"),
        owned(&["甲 \n尾", "", "乙"])
    );
    assert_eq!(read_block("<search-context>\n- 甲\n\n"), owned(&["甲"]));
    assert_eq!(read_block("没有条目"), owned(&[]));
    assert_eq!(read_block(""), owned(&[]));
}

#[test]
fn what_is_a_user_turn() {
    assert!(by_user(&human("你好")));
    assert!(!by_user(&message("ai", "你好")));
    assert!(!by_user(&block(&["甲"])));
    assert!(carries_context(&message("ai", "<search-context>")));
    assert!(!carries_context(&human(" <search-context>")));
    assert!(!by_user(&Json::Null));
    assert!(by_user(&Json::Object(vec![(
        "type".to_string(),
        Json::Text("human".to_string())
    )])));
    let numbered = Json::Object(vec![
        ("type".to_string(), Json::Number("1".to_string())),
        ("content".to_string(), Json::Bool(true)),
    ]);
    assert!(!by_user(&numbered));
}

#[test]
fn the_window_holds_the_last_turns() {
    let messages = vec![
        human("1"),
        block(&["甲"]),
        message("ai", "一"),
        human("2"),
        block(&["乙"]),
        message("ai", "二"),
        human("3"),
    ];
    assert_eq!(count_user_turns(&messages), 3);
    assert_eq!(find_window_start(&messages, 0), 0);
    assert_eq!(find_window_start(&messages, 1), 4);
    assert_eq!(find_window_start(&messages, 2), 1);
    assert_eq!(find_window_start(&messages, 3), 0);
    assert_eq!(find_window_start(&messages, 4), 0);
    assert_eq!(find_window_start(&vec![], 1), 0);
}

#[test]
fn a_block_moves_no_window() {
    let mut messages = vec![human("1"), human("2"), human("3")];
    let starts: Vec<usize> = (0..5).map(|w| find_window_start(&messages, w)).collect();
    messages.push(block(&["甲"]));
    assert_eq!(count_user_turns(&messages), 3);
    let now: Vec<usize> = (0..5).map(|w| find_window_start(&messages, w)).collect();
    assert_eq!(now, starts);
    assert_eq!(now, vec![0, 2, 1, 0, 0]);
}

#[test]
fn more_found_adds_behind() {
    let seen = TextSet::new();
    let found = owned(&["乙", "甲", "乙", "丙"]);
    assert_eq!(pick_fresh(&found, &seen), owned(&["乙", "甲", "丙"]));
    assert_eq!(pick_fresh(&owned(&["乙", "甲"]), &seen), owned(&["乙", "甲"]));
}

#[test]
fn what_was_brought_in_the_window_is_seen() {
    let messages = vec![human("1"), block(&["甲"]), human("2"), block(&["乙", "丙"])];
    let seen = collect_seen(&messages, 2);
    assert!(!seen.contains("甲"));
    assert!(seen.contains("乙"));
    assert!(seen.contains("丙"));
    assert!(collect_seen(&messages, 0).contains("甲"));
    assert!(!collect_seen(&messages, 9).contains("丙"));
}

#[test]
fn only_what_is_new_is_picked() {
    let mut seen = TextSet::new();
    seen.insert("乙".to_string());
    let found = owned(&[" 甲 ", "乙", "", "甲", "  ", "丙\n行", "\n乙"]);
    assert_eq!(pick_fresh(&found, &seen), owned(&["甲", "丙\n行"]));
}

#[test]
fn nothing_is_brought_twice_in_the_window() {
    let found = owned(&["甲", "乙\n第二行"]);
    let mut messages = vec![human("1")];
    let first = inject(&messages, 1, &found).unwrap();
    messages.push(human(&first));
    assert_eq!(inject(&messages, 1, &found), None);
    messages.push(message("ai", "答"));
    messages.push(human("2"));
    assert_eq!(inject(&messages, 1, &found), None);
    assert_eq!(
        inject(&messages, 1, &owned(&["甲", "丙"])),
        Some(format!("{}- 丙\n</search-context>", HEAD))
    );
}

#[test]
fn what_left_the_window_is_brought_again() {
    let found = owned(&["甲"]);
    let mut messages = vec![human("1"), block(&["甲"]), human("2"), human("3")];
    assert_eq!(inject(&messages, 2, &found), None);
    assert_eq!(
        inject(&messages, 1, &found),
        Some(format!("{}- 甲\n</search-context>", HEAD))
    );
    assert_eq!(inject(&messages, 0, &found), None);
    messages.push(human("4"));
    assert!(inject(&messages, 2, &found).is_some());
}

#[test]
fn the_last_message_is_searched_for() {
    let conversation = input(vec![human("1"), message("ai", "二")]);
    assert_eq!(last_user_message(&conversation), "二");
    match search_memories(&conversation, Some("http://m".to_string()), None) {
        Start::Send(post) => {
            assert_eq!(post.url, "http://m/search");
            assert_eq!(post.timeout_secs, 3);
            assert_eq!(post.body.query, "二");
            assert_eq!(post.body.user_id, "default");
            assert_eq!(post.body.top_k, 5);
            assert_eq!(post.body.similarity_tenths, 4);
        }
        other => panic!("{:?}", other),
    }
    match search_memories(&conversation, None, None) {
        Start::Fail(e) => assert_eq!(e, "MEMOS_BASE_URL not set"),
        other => panic!("{:?}", other),
    }
}

#[test]
fn without_a_text_there_is_no_search() {
    for conversation in [
        input(vec![]),
        input(vec![human("")]),
        input(vec![human("1"), Json::Null]),
        Json::Null,
        Json::Object(vec![]),
        Json::Object(vec![("messages".to_string(), Json::Text("x".to_string()))]),
    ] {
        assert_eq!(last_user_message(&conversation), "");
        assert!(matches!(search_memories(&conversation, None, None), Start::Skip));
    }
}

fn response(contents: &[&str]) -> SearchResponse {
    let memories = contents
        .iter()
        .map(|c| SearchMessage {
            id: None,
            content: c.to_string(),
            created_at: None,
            updated_at: None,
        })
        .collect();
    SearchResponse { memories }
}

#[test]
fn the_node_brings_what_was_found() {
    let conversation = input(vec![human("1")]);
    let action = search_memories_step(&conversation, 10, NodeEvent::Status(200));
    assert!(matches!(action, NodeAction::ReadJson));
    assert_eq!(contents_of(&response(&["a\nb", "c"])), owned(&["a\nb", "c"]));
    match search_memories_step(&conversation, 10, NodeEvent::Json(Some(response(&["甲"])))) {
        NodeAction::Finish { warning, block } => {
            assert_eq!(warning, None);
            assert_eq!(block, Some(format!("{}- 甲\n</search-context>", HEAD)));
        }
        other => panic!("{:?}", other),
    }
    match search_memories_step(&Json::Null, 10, NodeEvent::Json(Some(response(&[])))) {
        NodeAction::Finish { warning, block } => {
            assert_eq!(warning, None);
            assert_eq!(block, None);
        }
        other => panic!("{:?}", other),
    }
}

#[test]
fn a_refused_search_brings_nothing() {
    let conversation = input(vec![human("1")]);
    match search_memories_step(&conversation, 10, NodeEvent::Status(502)) {
        NodeAction::Finish { warning, block } => {
            assert_eq!(warning, Some("搜索失败，状态码: 502 Bad Gateway".to_string()));
            assert_eq!(block, None);
        }
        other => panic!("{:?}", other),
    }
    assert_eq!(warn_refused("x"), "搜索失败，状态码: x");
    let failed = search_memories_step(&conversation, 10, NodeEvent::SendFailed);
    assert!(matches!(failed, NodeAction::Propagate));
    let unread = search_memories_step(&conversation, 10, NodeEvent::Json(None));
    assert!(matches!(unread, NodeAction::Propagate));
}

#[test]
fn the_first_of_two_members_counts() {
    let object = Json::Object(vec![
        ("a".to_string(), Json::Text("1".to_string())),
        ("a".to_string(), Json::Text("2".to_string())),
    ]);
    assert_eq!(object.str_at("a"), Some("1"));
    assert_eq!(object.str_at("b"), None);
    assert!(object.get("b").is_none());
    assert!(Json::List(vec![]).get("a").is_none());
    assert!(Json::List(vec![Json::Null]).as_array().is_some());
    assert!(Json::Text("x".to_string()).as_array().is_none());
    assert_eq!(Json::Number("1".to_string()).as_str(), None);
}

#[test]
fn settings() {
    let setting = |s: &str| dedup_window(Some(s.to_string()));
    assert_eq!(dedup_window(None), 10);
    assert_eq!(setting(" 3\n"), 3);
    assert_eq!(setting("0"), 0);
    assert_eq!(setting("-1"), 10);
    assert_eq!(setting("三"), 10);
    assert_eq!(setting(""), 10);
    let (key, base, model) =
        load_openai_config("k".to_string(), Some("b".to_string()), Some("m".to_string()));
    assert_eq!((key.as_str(), base.as_deref(), model.as_str()), ("k", Some("b"), "m"));
    let (key, base, model) = load_openai_config("k".to_string(), None, None);
    assert_eq!((key.as_str(), base, model.as_str()), ("k", None, "mimo-v2.5-pro"));
}

#[test]
fn commands() {
    assert!(matches!(read_command(0, ""), Command::EndOfInput));
    assert!(matches!(read_command(5, "Quit\n"), Command::Quit));
    assert!(matches!(read_command(7, " EXIT \n"), Command::Quit));
    assert!(matches!(read_command(3, "  \n"), Command::Nothing));
    match read_command(9, " quit it\n") {
        Command::Ask(text) => assert_eq!(text, "quit it"),
        other => panic!("{:?}", other),
    }
}

#[test]
fn what_is_typed_is_a_turn() {
    let typed = user_input("你好".to_string());
    assert_eq!(last_user_message(&typed), "你好");
    let messages = typed.get("messages").and_then(|m| m.as_array()).unwrap();
    assert_eq!(count_user_turns(messages), 1);
    let typed = user_input("<search-context>".to_string());
    let messages = typed.get("messages").and_then(|m| m.as_array()).unwrap();
    assert_eq!(count_user_turns(messages), 0);
}
