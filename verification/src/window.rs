//! The part of a conversation in which a memory is not brought up again: the
//! last user turns and what stands between them.
use crate::json::Json;
use crate::text::{same_text, starts_with};
use vstd::prelude::*;

verus! {

/// A message that carries memories: its text begins with the opening mark.
pub open spec fn is_context_block(message: Json) -> bool {
    match message.text_at("content"@) {
        Some(content) => "<search-context>"@.is_prefix_of(content),
        None => false,
    }
}

/// A message that a person wrote.
pub open spec fn is_user_turn(message: Json) -> bool {
    message.text_at("type"@) == Some("human"@) && !is_context_block(message)
}

/// How many messages a person wrote.
pub open spec fn user_turns(messages: Seq<Json>) -> nat
    decreases messages.len(),
{
    if messages.len() == 0 {
        0
    } else if is_user_turn(messages.last()) {
        user_turns(messages.drop_last()) + 1
    } else {
        user_turns(messages.drop_last())
    }
}

/// The position just behind the `k`th user turn.
pub open spec fn turn_end(messages: Seq<Json>, k: nat) -> nat
    decreases messages.len(),
{
    if k == 0 || messages.len() == 0 {
        0
    } else if is_user_turn(messages.first()) {
        turn_end(messages.drop_first(), (k - 1) as nat) + 1
    } else {
        turn_end(messages.drop_first(), k) + 1
    }
}

/// Where the window of the last `window` user turns begins. It covers the whole
/// conversation where `window` is zero and where there are no more turns than
/// that.
pub open spec fn window_start(messages: Seq<Json>, window: nat) -> nat {
    if window > 0 && user_turns(messages) > window {
        turn_end(messages, (user_turns(messages) - window) as nat)
    } else {
        0
    }
}

/// Whether a message carries memories.
pub fn carries_context(message: &Json) -> (r: bool)
    ensures
        r == is_context_block(*message),
{
    match message.str_at("content") {
        Some(content) => starts_with(content, "<search-context>"),
        None => false,
    }
}

/// Whether a person wrote a message.
pub fn by_user(message: &Json) -> (r: bool)
    ensures
        r == is_user_turn(*message),
{
    match message.str_at("type") {
        Some(kind) => same_text(kind, "human") && !carries_context(message),
        None => false,
    }
}

/// How many messages a person wrote.
pub fn count_user_turns(messages: &Vec<Json>) -> (r: usize)
    ensures
        r == user_turns(messages@),
{
    let mut count: usize = 0;
    let mut i: usize = 0;
    assert(messages@.take(0) =~= Seq::empty());
    while i < messages.len()
        invariant
            i <= messages.len(),
            count <= i,
            count == user_turns(messages@.take(i as int)),
        decreases messages.len() - i,
    {
        assert(messages@.take(i + 1).drop_last() =~= messages@.take(i as int));
        if by_user(&messages[i]) {
            count += 1;
        }
        i += 1;
    }
    assert(messages@.take(i as int) =~= messages@);
    count
}

/// A turn more or less at the front.
pub proof fn lemma_user_turns_first(messages: Seq<Json>)
    requires
        messages.len() > 0,
    ensures
        user_turns(messages) == user_turns(messages.drop_first()) + if is_user_turn(
            messages.first(),
        ) {
            1nat
        } else {
            0
        },
    decreases messages.len(),
{
    if messages.len() == 1 {
        assert(messages.drop_last() =~= Seq::empty());
        assert(messages.drop_first() =~= Seq::empty());
    } else {
        assert(messages.drop_first().drop_last() =~= messages.drop_last().drop_first());
        lemma_user_turns_first(messages.drop_last());
    }
}

/// Fewer messages hold no more turns.
pub proof fn lemma_user_turns_skip(messages: Seq<Json>, n: int)
    requires
        0 <= n <= messages.len(),
    ensures
        user_turns(messages.skip(n)) <= user_turns(messages),
    decreases n,
{
    if n == 0 {
        assert(messages.skip(0) =~= messages);
    } else {
        lemma_user_turns_first(messages);
        lemma_user_turns_skip(messages.drop_first(), n - 1);
        assert(messages.drop_first().skip(n - 1) =~= messages.skip(n));
    }
}

/// What `turn_end` is: it lies behind a user turn, with `k` turns before it and
/// all the others after it.
pub proof fn lemma_turn_end(messages: Seq<Json>, k: nat)
    requires
        0 < k <= user_turns(messages),
    ensures
        0 < turn_end(messages, k) <= messages.len(),
        is_user_turn(messages[turn_end(messages, k) - 1]),
        user_turns(messages.take(turn_end(messages, k) as int)) == k,
        user_turns(messages.skip(turn_end(messages, k) as int)) == user_turns(messages) - k,
    decreases messages.len(),
{
    lemma_user_turns_first(messages);
    let rest = messages.drop_first();
    let end = turn_end(messages, k) as int;
    if is_user_turn(messages.first()) && k == 1 {
        assert(turn_end(rest, 0) == 0);
        assert(end == 1);
        assert(messages.take(1).drop_last() =~= Seq::empty());
        assert(user_turns(Seq::<Json>::empty()) == 0);
        assert(messages.skip(1) =~= rest);
    } else {
        let j = if is_user_turn(messages.first()) {
            (k - 1) as nat
        } else {
            k
        };
        lemma_turn_end(rest, j);
        assert(messages.skip(end) =~= rest.skip(end - 1));
        assert(messages.take(end).drop_first() =~= rest.take(end - 1));
        lemma_user_turns_first(messages.take(end));
    }
}

/// There is one position only that `lemma_turn_end` describes.
proof fn lemma_turn_end_unique(messages: Seq<Json>, k: nat, end: int)
    requires
        0 < end <= messages.len(),
        is_user_turn(messages[end - 1]),
        user_turns(messages.take(end)) == k,
    ensures
        turn_end(messages, k) == end,
    decreases messages.len(),
{
    let rest = messages.drop_first();
    lemma_user_turns_first(messages.take(end));
    assert(messages.take(end).drop_first() =~= rest.take(end - 1));
    if end == 1 {
        assert(rest.take(0) =~= Seq::empty());
        assert(k == 1);
        assert(turn_end(rest, 0) == 0);
    } else {
        let j = if is_user_turn(messages.first()) {
            (k - 1) as nat
        } else {
            k
        };
        lemma_turn_end_unique(rest, j, end - 1);
        assert(messages.take(end).drop_last() =~= messages.take(end - 1));
        assert(rest.take(end - 1).last() == messages[end - 1]);
    }
}

/// Where the window of the last `window` user turns begins.
pub fn find_window_start(messages: &Vec<Json>, window: usize) -> (r: usize)
    ensures
        r == window_start(messages@, window as nat),
{
    let turns: usize = count_user_turns(messages);
    if window == 0 || turns <= window {
        return 0;
    }
    let target: usize = turns - window;
    let mut seen: usize = 0;
    let mut i: usize = 0;
    assert(messages@.take(0) =~= Seq::empty());
    while i < messages.len()
        invariant
            i <= messages.len(),
            turns == user_turns(messages@),
            0 < window < turns,
            target == turns - window,
            seen < target,
            seen == user_turns(messages@.take(i as int)),
        decreases messages.len() - i,
    {
        assert(messages@.take(i + 1).drop_last() =~= messages@.take(i as int));
        if by_user(&messages[i]) {
            seen += 1;
        }
        if seen == target {
            proof {
                lemma_turn_end_unique(messages@, target as nat, i + 1);
            }
            return i + 1;
        }
        i += 1;
    }
    assert(messages@.take(i as int) =~= messages@);
    0
}

/// The window holds the last `window` user turns, no fewer and no more, and
/// begins right behind the turn before them; where `window` is zero, or no more
/// turns than that were taken, it holds the whole conversation.
pub proof fn law_window_holds_last_turns(messages: Seq<Json>, window: nat)
    ensures
        window_start(messages, window) <= messages.len(),
        window == 0 || user_turns(messages) <= window ==> window_start(messages, window) == 0,
        window > 0 && user_turns(messages) > window ==> {
            let start = window_start(messages, window) as int;
            &&& start > 0
            &&& is_user_turn(messages[start - 1])
            &&& user_turns(messages.skip(start)) == window
        },
{
    if window > 0 && user_turns(messages) > window {
        lemma_turn_end(messages, (user_turns(messages) - window) as nat);
    }
}

/// A message is in the window if and only if no more than `window` user turns
/// were taken from it on, or the window is unlimited.
pub proof fn law_in_window(messages: Seq<Json>, window: nat, at: int)
    requires
        0 <= at < messages.len(),
    ensures
        window_start(messages, window) <= at <==> window == 0 || user_turns(messages.skip(at))
            <= window,
{
    law_window_holds_last_turns(messages, window);
    let start = window_start(messages, window) as int;
    let from = messages.skip(at);
    if window > 0 && user_turns(messages) > window {
        if start <= at {
            lemma_user_turns_skip(messages.skip(start), at - start);
            assert(messages.skip(start).skip(at - start) =~= from);
        } else {
            lemma_user_turns_skip(from, start - 1 - at);
            let last = messages.skip(start - 1);
            assert(from.skip(start - 1 - at) =~= last);
            lemma_user_turns_first(last);
            assert(last.drop_first() =~= messages.skip(start));
        }
    } else {
        lemma_user_turns_skip(messages, at);
    }
}

/// A message that is no user turn moves no window.
proof fn lemma_no_turn_moves_no_window(messages: Seq<Json>, other: Json)
    requires
        !is_user_turn(other),
    ensures
        user_turns(messages.push(other)) == user_turns(messages),
        forall|window: nat| #[trigger]
            window_start(messages.push(other), window) == window_start(messages, window),
{
    assert(messages.push(other).drop_last() =~= messages);
    assert forall|window: nat| #[trigger]
        window_start(messages.push(other), window) == window_start(messages, window) by {
        if window > 0 && user_turns(messages) > window {
            let k = (user_turns(messages) - window) as nat;
            lemma_turn_end(messages, k);
            let end = turn_end(messages, k) as int;
            assert(messages.push(other).take(end) =~= messages.take(end));
            lemma_turn_end_unique(messages.push(other), k, end);
        }
    }
}

/// A message that carries memories moves no window: it is not a user turn.
pub proof fn law_context_is_no_turn(messages: Seq<Json>, block: Json)
    requires
        is_context_block(block),
    ensures
        user_turns(messages.push(block)) == user_turns(messages),
        forall|window: nat| #[trigger]
            window_start(messages.push(block), window) == window_start(messages, window),
{
    lemma_no_turn_moves_no_window(messages, block);
}

/// A message carries memories if and only if it has a text under `content` that
/// begins with the opening mark, whoever it is from.
pub proof fn law_carries_context(message: &Json, r: bool)
    requires
        call_ensures(carries_context, (message,), r),
    ensures
        r <==> message.text_at("content"@) is Some && "<search-context>"@.is_prefix_of(
            message.text_at("content"@).unwrap(),
        ),
{
}

/// A message is a user turn if and only if the text under `type` is `human`, to
/// the letter, and it carries no memories. A reply of the model or of a tool is
/// none, and neither is a message without a type.
pub proof fn law_by_user(message: &Json, r: bool)
    requires
        call_ensures(by_user, (message,), r),
    ensures
        message.text_at("type"@) != Some("human"@) ==> !r,
        message.text_at("type"@) == Some("human"@) ==> (!r <==> message.text_at("content"@) is Some
            && "<search-context>"@.is_prefix_of(message.text_at("content"@).unwrap())),
{
}

/// A message whose type is not `human`, such as a reply of the model or of a tool,
/// changes neither how many turns are counted nor where a window begins.
pub proof fn law_other_types_move_no_window(
    messages: &Vec<Json>,
    other: Json,
    longer: &Vec<Json>,
    window: usize,
    turns: usize,
    turns_after: usize,
    start: usize,
    start_after: usize,
)
    requires
        longer@ == messages@.push(other),
        other.text_at("type"@) != Some("human"@),
        call_ensures(count_user_turns, (messages,), turns),
        call_ensures(count_user_turns, (longer,), turns_after),
        call_ensures(find_window_start, (messages, window), start),
        call_ensures(find_window_start, (longer, window), start_after),
    ensures
        turns_after == turns,
        start_after == start,
{
    lemma_no_turn_moves_no_window(messages@, other);
    assert(window_start(messages@.push(other), window as nat) == window_start(
        messages@,
        window as nat,
    ));
}

/// What a person says is one turn more, unless it begins as a block of memories
/// does; before anything is said there are none.
pub proof fn law_what_a_person_says_is_a_turn(
    messages: &Vec<Json>,
    said: Json,
    longer: &Vec<Json>,
    turns: usize,
    turns_after: usize,
)
    requires
        longer@ == messages@.push(said),
        said.text_at("type"@) == Some("human"@),
        call_ensures(count_user_turns, (messages,), turns),
        call_ensures(count_user_turns, (longer,), turns_after),
    ensures
        messages@.len() == 0 ==> turns == 0,
        said.text_at("content"@) is None ==> turns_after == turns + 1,
        said.text_at("content"@) matches Some(text) ==> turns_after == turns
            + if "<search-context>"@.is_prefix_of(text) {
            0int
        } else {
            1
        },
{
    assert(longer@.drop_last() =~= messages@);
}

/// The window begins right behind a message that a person wrote, and as many turns
/// as it is wide are counted in what follows. It is the whole conversation where
/// its width is zero or no more turns than that were taken.
pub proof fn law_find_window_start(
    messages: &Vec<Json>,
    window: usize,
    start: usize,
    inside: &Vec<Json>,
    turns: usize,
    turns_inside: usize,
)
    requires
        call_ensures(find_window_start, (messages, window), start),
        start <= messages@.len() ==> inside@ == messages@.skip(start as int),
        call_ensures(count_user_turns, (messages,), turns),
        call_ensures(count_user_turns, (inside,), turns_inside),
    ensures
        start <= messages@.len(),
        window == 0 || turns <= window ==> start == 0,
        window > 0 && turns > window ==> {
            &&& start > 0
            &&& messages@[start - 1].text_at("type"@) == Some("human"@)
            &&& !(messages@[start - 1].text_at("content"@) is Some
                && "<search-context>"@.is_prefix_of(
                messages@[start - 1].text_at("content"@).unwrap(),
            ))
            &&& turns_inside == window
        },
{
    law_window_holds_last_turns(messages@, window as nat);
}

/// A message is in the window if and only if no more turns than the window is wide
/// are counted from it on, or the width is zero.
pub proof fn law_message_in_window(
    messages: &Vec<Json>,
    window: usize,
    start: usize,
    at: int,
    onward: &Vec<Json>,
    turns: usize,
)
    requires
        0 <= at < messages@.len(),
        call_ensures(find_window_start, (messages, window), start),
        onward@ == messages@.skip(at),
        call_ensures(count_user_turns, (onward,), turns),
    ensures
        start <= at <==> window == 0 || turns <= window,
{
    law_in_window(messages@, window as nat, at);
}

} // verus!
