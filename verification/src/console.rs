//! What is typed at the console.
use crate::json::{member, Json};
use crate::node::{messages_of, search_memories, Start};
use crate::text::{ascii_lowercase, eq_ignore_ascii_case, trim, trimmed};
use crate::window::is_user_turn;
use vstd::prelude::*;

verus! {

/// What a line asks for.
#[derive(Debug)]
pub enum Command {
    /// The input is at its end.
    EndOfInput,
    /// The user wants to leave.
    Quit,
    /// An empty line.
    Nothing,
    /// A message for the model.
    Ask(String),
}

/// What a line asks for, over its characters.
pub enum CommandView {
    EndOfInput,
    Quit,
    Nothing,
    Ask(Seq<char>),
}

impl View for Command {
    type V = CommandView;

    open spec fn view(&self) -> CommandView {
        match self {
            Command::EndOfInput => CommandView::EndOfInput,
            Command::Quit => CommandView::Quit,
            Command::Nothing => CommandView::Nothing,
            Command::Ask(text) => CommandView::Ask(text@),
        }
    }
}

/// What `line` asks for, where `read` bytes were read for it.
pub open spec fn command(read: usize, line: Seq<char>) -> CommandView {
    let text = trimmed(line);
    if read == 0 {
        CommandView::EndOfInput
    } else if ascii_lowercase(text) == "quit"@ || ascii_lowercase(text) == "exit"@ {
        CommandView::Quit
    } else if text.len() == 0 {
        CommandView::Nothing
    } else {
        CommandView::Ask(text)
    }
}

/// What `line` asks for, where `read` bytes were read for it.
pub fn read_command(read: usize, line: &str) -> (r: Command)
    ensures
        r@ == command(read, line@),
{
    if read == 0 {
        return Command::EndOfInput;
    }
    let text = trim(line);
    proof {
        reveal_strlit("quit");
        reveal_strlit("exit");
        assert(ascii_lowercase("quit"@) =~= "quit"@);
        assert(ascii_lowercase("exit"@) =~= "exit"@);
    }
    if eq_ignore_ascii_case(text, "quit") || eq_ignore_ascii_case(text, "exit") {
        Command::Quit
    } else if text.is_empty() {
        Command::Nothing
    } else {
        Command::Ask(text.to_owned())
    }
}

/// The message that a person wrote: its type and its content, and nothing else.
pub open spec fn is_user_message(message: Json, text: Seq<char>) -> bool {
    &&& message matches Json::Object(members)
    &&& members@.len() == 2
    &&& members@[0].0@ == "type"@
    &&& members@[0].1.text() == Some("human"@)
    &&& members@[1].0@ == "content"@
    &&& members@[1].1.text() == Some(text)
}

/// An object that holds a list of one message, and nothing else.
pub open spec fn is_user_input(input: Json, text: Seq<char>) -> bool {
    &&& input matches Json::Object(members)
    &&& members@.len() == 1
    &&& members@[0].0@ == "messages"@
    &&& members@[0].1 matches Json::List(messages)
    &&& messages@.len() == 1
    &&& is_user_message(messages@[0], text)
}

/// The input of the graph for one message of the user. It is a user turn, unless
/// it begins as a block of memories does.
pub fn user_input(text: String) -> (r: Json)
    ensures
        is_user_input(r, text@),
        messages_of(r).len() == 1,
        messages_of(r)[0].text_at("content"@) == Some(text@),
        is_user_turn(messages_of(r)[0]) <==> !"<search-context>"@.is_prefix_of(text@),
{
    proof {
        reveal_strlit("type");
        reveal_strlit("content");
        assert("type"@.len() != "content"@.len());
    }
    let mut members: Vec<(String, Json)> = Vec::new();
    members.push(("type".to_owned(), Json::Text("human".to_owned())));
    members.push(("content".to_owned(), Json::Text(text)));
    assert(members@.drop_first().first() == members@[1]);
    assert(member(members@.drop_first(), "content"@) == Some(members@[1].1));
    let message = Json::Object(members);
    assert(message.text_at("content"@) == Some(text@));
    let mut messages: Vec<Json> = Vec::new();
    messages.push(message);
    let mut input: Vec<(String, Json)> = Vec::new();
    input.push(("messages".to_owned(), Json::List(messages)));
    Json::Object(input)
}

/// What is typed reaches the model character for character, without the white
/// space around it: each line that is neither empty nor `quit` nor `exit`, in
/// capitals or small letters.
pub proof fn law_typed_text_is_asked(read: usize, line: &str, r: Command)
    requires
        call_ensures(read_command, (read, line), r),
        read > 0,
        trimmed(line@).len() > 0,
        ascii_lowercase(trimmed(line@)) != "quit"@,
        ascii_lowercase(trimmed(line@)) != "exit"@,
    ensures
        r matches Command::Ask(text) && text@ == trimmed(line@),
{
}

/// The user leaves with `quit` or `exit` alone on a line, in capitals or small
/// letters, and in no other way but the end of the input. An empty line asks for
/// nothing.
pub proof fn law_when_the_user_leaves(read: usize, line: &str, r: Command)
    requires
        call_ensures(read_command, (read, line), r),
    ensures
        r is EndOfInput <==> read == 0,
        r is Quit <==> read > 0 && (ascii_lowercase(trimmed(line@)) == "quit"@ || ascii_lowercase(
            trimmed(line@),
        ) == "exit"@),
        r is Nothing <==> read > 0 && trimmed(line@).len() == 0,
{
    reveal_strlit("quit");
    reveal_strlit("exit");
    assert(ascii_lowercase(trimmed(line@)).len() == trimmed(line@).len());
}

/// What is typed is handed on as one message of the type `human` with the text as
/// its content, under `messages`, and with nothing else.
pub proof fn law_user_input(text: String, r: Json)
    requires
        call_ensures(user_input, (text,), r),
    ensures
        r matches Json::Object(members) && members@.len() == 1 && members@[0].0@ == "messages"@ && (
        members@[0].1 matches Json::List(messages) && messages@.len() == 1 && (
        messages@[0] matches Json::Object(fields) && {
            &&& fields@.len() == 2
            &&& fields@[0].0@ == "type"@
            &&& fields@[1].0@ == "content"@
            &&& fields@[0].1 matches Json::Text(kind) && kind@ == "human"@
            &&& fields@[1].1 matches Json::Text(content) && content@ == text@
        })),
{
}

/// What is typed is what is searched for: the query of the search that precedes
/// the answer is the line, without the white space around it.
pub proof fn law_typed_text_is_searched_for(
    read: usize,
    line: &str,
    text: String,
    input: &Json,
    base_url: Option<String>,
    user_id: Option<String>,
    start: Start,
)
    requires
        call_ensures(read_command, (read, line), Command::Ask(text)),
        call_ensures(user_input, (text,), *input),
        call_ensures(search_memories, (input, base_url, user_id), start),
        base_url is Some,
    ensures
        start matches Start::Send(post) && post.body.query@ == trimmed(line@),
{
}

} // verus!
