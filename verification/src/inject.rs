//! Which of the memories found for a message are brought into the conversation.
use crate::block::{
    block_entries, closes_early, context_block, is_entry, law_written_entry_is_read_back,
    read_block, survives, write_block,
};
use crate::json::Json;
use crate::text::{
    holds, lemma_trimmed_is_trimmed, lemma_trimmed_of_trimmed, opt_text, trim, trimmed,
};
use crate::text_set::TextSet;
use crate::window::{
    carries_context, count_user_turns, find_window_start, is_context_block, law_context_is_no_turn,
    law_in_window, law_window_holds_last_turns, lemma_user_turns_first, user_turns, window_start,
};
use vstd::prelude::*;

verus! {

/// The message at `k` brought `entry` into the conversation.
pub open spec fn brought_by(messages: Seq<Json>, k: int, entry: Seq<char>) -> bool {
    is_context_block(messages[k]) && block_entries(
        messages[k].text_at("content"@).unwrap(),
    ).contains(entry)
}

/// The entries that were brought into the conversation from `start` on.
pub open spec fn seen_entries(messages: Seq<Json>, start: int) -> Set<Seq<char>> {
    Set::new(
        |entry: Seq<char>|
            exists|k: int| start <= k < messages.len() && #[trigger] brought_by(messages, k, entry),
    )
}

/// What is new among `found`: the texts without white space around them, each
/// once and in the order of their first occurrence, without those that are empty
/// or were seen.
pub open spec fn fresh_entries(found: Seq<Seq<char>>, seen: Set<Seq<char>>) -> Seq<Seq<char>>
    decreases found.len(),
{
    if found.len() == 0 {
        Seq::empty()
    } else {
        let fresh = fresh_entries(found.drop_last(), seen);
        let entry = trimmed(found.last());
        if entry.len() == 0 || seen.contains(entry) || fresh.contains(entry) {
            fresh
        } else {
            fresh.push(entry)
        }
    }
}

/// What is new among `found` in a conversation whose window is `window` turns.
pub open spec fn fresh_in(
    messages: Seq<Json>,
    window: nat,
    found: Seq<Seq<char>>,
) -> Seq<Seq<char>> {
    fresh_entries(found, seen_entries(messages, window_start(messages, window) as int))
}

/// The block to bring into the conversation, if anything is new.
pub open spec fn injection(messages: Seq<Json>, window: nat, found: Seq<Seq<char>>) -> Option<
    Seq<char>,
> {
    let fresh = fresh_in(messages, window, found);
    if fresh.len() == 0 {
        None
    } else {
        Some(context_block(fresh))
    }
}

/// The entries that were brought into the conversation from `start` on.
pub fn collect_seen(messages: &Vec<Json>, start: usize) -> (r: TextSet)
    ensures
        r@ == seen_entries(messages@, start as int),
{
    let mut seen = TextSet::new();
    let mut i: usize = start;
    assert(seen@ =~= Set::new(
        |entry: Seq<char>| exists|k: int| start <= k < i && brought_by(messages@, k, entry),
    ));
    while i < messages.len()
        invariant
            start <= i,
            i <= messages.len() || i == start,
            seen@ == Set::new(
                |entry: Seq<char>|
                    exists|k: int| start <= k < i && #[trigger] brought_by(messages@, k, entry),
            ),
        decreases messages.len() - i,
    {
        let ghost before = seen@;
        if carries_context(&messages[i]) {
            if let Some(content) = messages[i].str_at("content") {
                let entries = read_block(content);
                let ghost all = entries.deep_view();
                let mut j: usize = 0;
                assert(seen@ =~= before.union(all.take(0).to_set()));
                while j < entries.len()
                    invariant
                        j <= entries.len(),
                        all == entries.deep_view(),
                        seen@ == before.union(all.take(j as int).to_set()),
                    decreases entries.len() - j,
                {
                    seen.insert(entries[j].clone());
                    proof {
                        let old_part = all.take(j as int);
                        let new_part = all.take(j + 1);
                        assert(new_part =~= old_part.push(all[j as int]));
                        assert forall|t: Seq<char>|
                            new_part.contains(t) <==> old_part.contains(t) || t
                                == all[j as int] by {
                            if old_part.contains(t) {
                                let k = old_part.index_of(t);
                                assert(new_part[k] == t);
                            }
                            assert(new_part[j as int] == all[j as int]);
                            if new_part.contains(t) && t != all[j as int] {
                                let k = new_part.index_of(t);
                                assert(old_part[k] == t);
                            }
                        }
                        assert(seen@ =~= before.union(new_part.to_set()));
                    }
                    j += 1;
                }
                assert(all.take(j as int) =~= all);
                assert(forall|t: Seq<char>|
                    #[trigger] seen@.contains(t) <==> before.contains(t) || brought_by(
                        messages@,
                        i as int,
                        t,
                    ));
            }
        }
        assert(forall|t: Seq<char>|
            #[trigger] seen@.contains(t) <==> before.contains(t) || brought_by(
                messages@,
                i as int,
                t,
            ));
        proof {
            let now = Set::new(
                |entry: Seq<char>|
                    exists|k: int| start <= k < i + 1 && #[trigger] brought_by(messages@, k, entry),
            );
            assert forall|t: Seq<char>| seen@.contains(t) <==> now.contains(t) by {
                if now.contains(t) {
                    let k = choose|k: int|
                        start <= k < i + 1 && #[trigger] brought_by(messages@, k, t);
                    if k < i {
                        assert(before.contains(t));
                    }
                }
            }
            assert(seen@ =~= now);
        }
        i += 1;
    }
    proof {
        let all = seen_entries(messages@, start as int);
        assert forall|t: Seq<char>| seen@.contains(t) <==> all.contains(t) by {
            if seen@.contains(t) {
                let k = choose|k: int| start <= k < i && #[trigger] brought_by(messages@, k, t);
                assert(start <= k < messages.len() && brought_by(messages@, k, t));
            }
            if all.contains(t) {
                let k = choose|k: int|
                    start <= k < messages@.len() && #[trigger] brought_by(messages@, k, t);
                assert(start <= k < i && brought_by(messages@, k, t));
            }
        }
        assert(seen@ =~= all);
    }
    seen
}

/// What is new among `found`.
pub fn pick_fresh(found: &Vec<String>, seen: &TextSet) -> (r: Vec<String>)
    ensures
        r.deep_view() == fresh_entries(found.deep_view(), seen@),
{
    let mut fresh: Vec<String> = Vec::new();
    let ghost all = found.deep_view();
    let mut i: usize = 0;
    assert(all.take(0) =~= Seq::empty());
    assert(fresh.deep_view() =~= Seq::empty());
    while i < found.len()
        invariant
            i <= found.len(),
            all == found.deep_view(),
            fresh.deep_view() == fresh_entries(all.take(i as int), seen@),
        decreases found.len() - i,
    {
        let entry = trim(found[i].as_str()).to_owned();
        assert(all.take(i + 1).drop_last() =~= all.take(i as int));
        assert(entry@ == trimmed(all.take(i + 1).last()));
        let known = entry.as_str().is_empty() || seen.contains(entry.as_str()) || holds(
            &fresh,
            entry.as_str(),
        );
        if !known {
            let ghost before = fresh.deep_view();
            fresh.push(entry);
            assert(fresh.deep_view() =~= before.push(entry@));
        }
        i += 1;
    }
    assert(all.take(i as int) =~= all);
    fresh
}

/// The block to bring into the conversation, if anything is new.
pub fn inject(messages: &Vec<Json>, window: usize, found: &Vec<String>) -> (r: Option<String>)
    ensures
        opt_text(r) == injection(messages@, window as nat, found.deep_view()),
{
    let start: usize = find_window_start(messages, window);
    let seen = collect_seen(messages, start);
    let fresh = pick_fresh(found, &seen);
    if fresh.len() == 0 {
        None
    } else {
        Some(write_block(&fresh))
    }
}

/// What is brought into the conversation was found, holds no white space around
/// it and is not empty, was not seen, and is brought once; and whatever was found
/// and is not empty was seen or is brought.
pub proof fn law_fresh_entries(found: Seq<Seq<char>>, seen: Set<Seq<char>>)
    ensures
        fresh_entries(found, seen).no_duplicates(),
        forall|e: Seq<char>| #[trigger]
            fresh_entries(found, seen).contains(e) ==> is_entry(e) && !seen.contains(e),
        forall|e: Seq<char>| #[trigger]
            fresh_entries(found, seen).contains(e) ==> exists|k: int|
                0 <= k < found.len() && trimmed(#[trigger] found[k]) == e,
        forall|k: int|
            0 <= k < found.len() && trimmed(#[trigger] found[k]).len() > 0 ==> seen.contains(
                trimmed(found[k]),
            ) || fresh_entries(found, seen).contains(trimmed(found[k])),
    decreases found.len(),
{
    if found.len() > 0 {
        let before = found.drop_last();
        let old_fresh = fresh_entries(before, seen);
        let fresh = fresh_entries(found, seen);
        let last = trimmed(found.last());
        law_fresh_entries(before, seen);
        lemma_trimmed_is_trimmed(found.last());
        let added = fresh.len() > old_fresh.len();
        assert forall|e: Seq<char>| #[trigger] fresh.contains(e) implies old_fresh.contains(e) || (
        added && e == last) by {
            let k = fresh.index_of(e);
            if k < old_fresh.len() {
                assert(old_fresh[k] == e);
            }
        }
        assert forall|e: Seq<char>| #[trigger] old_fresh.contains(e) implies fresh.contains(e) by {
            let k = old_fresh.index_of(e);
            assert(fresh[k] == e);
        }
        if added {
            assert(fresh[old_fresh.len() as int] == last);
            assert(!old_fresh.contains(last));
        }
        assert forall|e: Seq<char>| #[trigger] fresh.contains(e) implies exists|k: int|
            0 <= k < found.len() && trimmed(#[trigger] found[k]) == e by {
            if old_fresh.contains(e) {
                let k = choose|k: int| 0 <= k < before.len() && trimmed(#[trigger] before[k]) == e;
                assert(trimmed(found[k]) == e);
            } else {
                assert(trimmed(found[found.len() - 1]) == e);
            }
        }
        assert forall|k: int|
            0 <= k < found.len() && trimmed(#[trigger] found[k]).len() > 0 implies seen.contains(
            trimmed(found[k]),
        ) || fresh.contains(trimmed(found[k])) by {
            if k < before.len() {
                assert(trimmed(before[k]).len() > 0);
            }
        }
    }
}

/// What is found later comes later: more memories found add entries behind those
/// that the first ones gave, and change none of them.
pub proof fn law_fresh_entries_keep_order(found: Seq<Seq<char>>, n: int, seen: Set<Seq<char>>)
    requires
        0 <= n <= found.len(),
    ensures
        fresh_entries(found.take(n), seen).is_prefix_of(fresh_entries(found, seen)),
    decreases found.len(),
{
    if n == found.len() {
        assert(found.take(n) =~= found);
    } else {
        let before = found.drop_last();
        law_fresh_entries_keep_order(before, n, seen);
        assert(before.take(n) =~= found.take(n));
        let first = fresh_entries(found.take(n), seen);
        let fresh = fresh_entries(found, seen);
        assert(fresh.subrange(0, first.len() as int) =~= fresh_entries(before, seen).subrange(
            0,
            first.len() as int,
        ));
    }
}

/// What was brought before the window only is forgotten: a memory that is found
/// and that no block in the window holds is brought.
pub proof fn law_forgotten_outside_window(
    messages: Seq<Json>,
    window: nat,
    found: Seq<Seq<char>>,
    k: int,
)
    requires
        0 <= k < found.len(),
        trimmed(found[k]).len() > 0,
        forall|at: int|
            window_start(messages, window) <= at < messages.len() ==> !#[trigger] brought_by(
                messages,
                at,
                trimmed(found[k]),
            ),
    ensures
        fresh_in(messages, window, found).contains(trimmed(found[k])),
{
    law_fresh_entries(found, seen_entries(messages, window_start(messages, window) as int));
}

/// Where nothing is new, nothing is brought into the conversation.
pub proof fn law_nothing_new_brings_nothing(
    messages: Seq<Json>,
    window: nat,
    found: Seq<Seq<char>>,
)
    ensures
        injection(messages, window, found) is None <==> forall|k: int|
            0 <= k < found.len() ==> trimmed(#[trigger] found[k]).len() == 0 || seen_entries(
                messages,
                window_start(messages, window) as int,
            ).contains(trimmed(found[k])),
{
    let seen = seen_entries(messages, window_start(messages, window) as int);
    let fresh = fresh_entries(found, seen);
    law_fresh_entries(found, seen);
    if fresh.len() > 0 {
        assert(fresh.contains(fresh[0]));
        let k = choose|k: int| 0 <= k < found.len() && trimmed(#[trigger] found[k]) == fresh[0];
        assert(trimmed(found[k]) == fresh[0]);
    }
}

/// What was brought into the conversation is not brought again while the message
/// that brought it is in the window: no entry of a block there is fresh, if the
/// entry survives in its block and none before it ends the block.
pub proof fn law_no_entry_twice_in_window(
    messages: Seq<Json>,
    window: nat,
    found: Seq<Seq<char>>,
    at: int,
    entries: Seq<Seq<char>>,
    i: int,
)
    requires
        window_start(messages, window) <= at < messages.len(),
        messages[at].text_at("content"@) == Some(context_block(entries)),
        0 <= i < entries.len(),
        forall|k: int| 0 <= k < entries.len() ==> is_entry(#[trigger] entries[k]),
        forall|k: int| 0 <= k < i ==> !closes_early(#[trigger] entries[k]),
        survives(entries[i]),
    ensures
        !fresh_in(messages, window, found).contains(entries[i]),
{
    law_written_entry_is_read_back(entries, i);
    lemma_block_is_context(entries);
    let seen = seen_entries(messages, window_start(messages, window) as int);
    assert(brought_by(messages, at, entries[i]));
    assert(seen.contains(entries[i]));
    law_fresh_entries(found, seen);
}

/// The block that is written is known as one.
proof fn lemma_block_is_context(entries: Seq<Seq<char>>)
    ensures
        "<search-context>"@.is_prefix_of(context_block(entries)),
{
    let open = "<search-context>"@;
    let block = context_block(entries);
    assert(block.subrange(0, open.len() as int) =~= open);
}

/// The same memories found again, with the block for them in the conversation,
/// bring nothing: not in the same turn, and not until more turns than the window
/// holds have passed. (All entries of the block survive in it.)
pub proof fn law_found_again_brings_nothing(
    messages: Seq<Json>,
    window: nat,
    found: Seq<Seq<char>>,
    later: Seq<Json>,
    block: Json,
)
    requires
        injection(messages, window, found) is Some,
        block.text_at("content"@) == injection(messages, window, found),
        user_turns(later) <= window || window == 0,
        forall|k: int|
            0 <= k < fresh_in(messages, window, found).len() ==> survives(
                #[trigger] fresh_in(messages, window, found)[k],
            ),
    ensures
        fresh_in(messages.push(block) + later, window, fresh_in(messages, window, found)).len()
            == 0,
{
    let all = messages.push(block) + later;
    let fresh = fresh_in(messages, window, found);
    let seen = seen_entries(messages, window_start(messages, window) as int);
    let at = messages.len() as int;
    let start = window_start(all, window) as int;
    law_fresh_entries(found, seen);
    lemma_block_is_context(fresh);
    assert(all[at] == block);
    assert(all.skip(at).drop_first() =~= later);
    lemma_user_turns_first(all.skip(at));
    law_in_window(all, window, at);
    assert forall|k: int| 0 <= k < fresh.len() implies is_entry(#[trigger] fresh[k]) by {
        assert(fresh.contains(fresh[k]));
    }
    assert forall|k: int| 0 <= k < fresh.len() implies trimmed(#[trigger] fresh[k]).len() == 0
        || seen_entries(all, start).contains(trimmed(fresh[k])) by {
        lemma_trimmed_of_trimmed(fresh[k]);
        law_written_entry_is_read_back(fresh, k);
        assert(brought_by(all, at, fresh[k]));
    }
    law_nothing_new_brings_nothing(all, window, fresh);
}

/// The same search with the block for it in the conversation brings nothing.
/// (All entries of the block survive in it.)
pub proof fn law_same_search_brings_nothing(
    messages: Seq<Json>,
    window: nat,
    found: Seq<Seq<char>>,
    block: Json,
)
    requires
        injection(messages, window, found) is Some,
        block.text_at("content"@) == injection(messages, window, found),
        forall|k: int|
            0 <= k < fresh_in(messages, window, found).len() ==> survives(
                #[trigger] fresh_in(messages, window, found)[k],
            ),
    ensures
        injection(messages.push(block), window, found) is None,
{
    let all = messages.push(block);
    let fresh = fresh_in(messages, window, found);
    let start = window_start(messages, window) as int;
    let seen = seen_entries(messages, start);
    let at = messages.len() as int;
    law_fresh_entries(found, seen);
    lemma_block_is_context(fresh);
    law_context_is_no_turn(messages, block);
    law_window_holds_last_turns(messages, window);
    assert(window_start(all, window) == start);
    assert forall|k: int| 0 <= k < fresh.len() implies is_entry(#[trigger] fresh[k]) by {
        assert(fresh.contains(fresh[k]));
    }
    assert forall|k: int| 0 <= k < found.len() implies trimmed(#[trigger] found[k]).len() == 0
        || seen_entries(all, start).contains(trimmed(found[k])) by {
        let entry = trimmed(found[k]);
        if entry.len() > 0 {
            if seen.contains(entry) {
                let j = choose|j: int|
                    start <= j < messages.len() && #[trigger] brought_by(messages, j, entry);
                assert(all[j] == messages[j]);
                assert(brought_by(all, j, entry));
            } else {
                let j = fresh.index_of(entry);
                law_written_entry_is_read_back(fresh, j);
                assert(all[at] == block);
                assert(brought_by(all, at, entry));
            }
        }
    }
    law_nothing_new_brings_nothing(all, window, found);
}

/// Some message from `start` on has a content that begins with the opening mark and
/// holds `entry`.
pub open spec fn is_held_from(messages: Seq<Json>, start: int, entry: Seq<char>) -> bool {
    exists|at: int|
        {
            &&& start <= at < messages.len()
            &&& (#[trigger] messages[at]).text_at("content"@) is Some
            &&& "<search-context>"@.is_prefix_of(messages[at].text_at("content"@).unwrap())
            &&& block_entries(messages[at].text_at("content"@).unwrap()).contains(entry)
        }
}

/// Somewhere in `found` stands `first`, with or without white space around it, and
/// `second` does not stand there or before.
pub open spec fn is_found_before(
    found: Seq<Seq<char>>,
    first: Seq<char>,
    second: Seq<char>,
) -> bool {
    exists|a: int|
        {
            &&& 0 <= a < found.len()
            &&& trimmed(#[trigger] found[a]) == first
            &&& forall|b: int| 0 <= b <= a ==> trimmed(#[trigger] found[b]) != second
        }
}

/// A memory counts as known if and only if some message from `start` on has a
/// content that begins with the opening mark and holds the memory as an entry,
/// whoever the message is from.
pub proof fn law_collect_seen(messages: &Vec<Json>, start: usize, r: TextSet, entry: Seq<char>)
    requires
        call_ensures(collect_seen, (messages, start), r),
    ensures
        r@.contains(entry) <==> is_held_from(messages@, start as int, entry),
{
    lemma_seen(messages@, start as int, entry);
}

proof fn lemma_seen(messages: Seq<Json>, start: int, entry: Seq<char>)
    ensures
        seen_entries(messages, start).contains(entry) <==> is_held_from(messages, start, entry),
{
    if seen_entries(messages, start).contains(entry) {
        let k = choose|k: int| start <= k < messages.len() && #[trigger] brought_by(
            messages,
            k,
            entry,
        );
        assert(messages[k].text_at("content"@) is Some);
    }
    if is_held_from(messages, start, entry) {
        let at = choose|at: int|
            {
                &&& start <= at < messages.len()
                &&& (#[trigger] messages[at]).text_at("content"@) is Some
                &&& "<search-context>"@.is_prefix_of(messages[at].text_at("content"@).unwrap())
                &&& block_entries(messages[at].text_at("content"@).unwrap()).contains(entry)
            };
        assert(brought_by(messages, at, entry));
    }
}

/// Of two entries that are brought, the one that was found first comes first.
pub proof fn law_found_first_comes_first(
    found: Seq<Seq<char>>,
    seen: Set<Seq<char>>,
    i: int,
    j: int,
)
    requires
        0 <= i < j < fresh_entries(found, seen).len(),
    ensures
        is_found_before(found, fresh_entries(found, seen)[i], fresh_entries(found, seen)[j]),
    decreases found.len(),
{
    let fresh = fresh_entries(found, seen);
    let before = found.drop_last();
    let old_fresh = fresh_entries(before, seen);
    if j < old_fresh.len() {
        law_found_first_comes_first(before, seen, i, j);
        let a = choose|a: int|
            {
                &&& 0 <= a < before.len()
                &&& trimmed(#[trigger] before[a]) == old_fresh[i]
                &&& forall|b: int|
                    0 <= b <= a ==> trimmed(#[trigger] before[b]) != old_fresh[j]
            };
        assert(found[a] == before[a]);
        assert forall|b: int| 0 <= b <= a implies trimmed(#[trigger] found[b]) != fresh[j] by {
            assert(before[b] == found[b]);
        }
    } else {
        law_fresh_entries(before, seen);
        assert(fresh == old_fresh.push(trimmed(found.last())));
        assert(old_fresh.contains(old_fresh[i]));
        let a = choose|a: int| 0 <= a < before.len() && trimmed(#[trigger] before[a])
            == old_fresh[i];
        assert(found[a] == before[a]);
        assert forall|b: int| 0 <= b <= a implies trimmed(#[trigger] found[b]) != fresh[j] by {
            assert(before[b] == found[b]);
            if trimmed(before[b]) == fresh[j] {
                assert(trimmed(before[b]).len() > 0);
            }
        }
    }
}

/// What is picked of the memories that were found: each text without the white
/// space around it, once, unless it is empty or known, and in the order in which
/// they were found.
pub proof fn law_pick_fresh(found: &Vec<String>, seen: &TextSet, r: Vec<String>)
    requires
        call_ensures(pick_fresh, (found, seen), r),
    ensures
        r.deep_view().no_duplicates(),
        forall|e: Seq<char>| #[trigger]
            r.deep_view().contains(e) <==> e.len() > 0 && !seen@.contains(e) && exists|k: int|
                0 <= k < found.deep_view().len() && trimmed(#[trigger] found.deep_view()[k]) == e,
        forall|i: int, j: int|
            0 <= i < j < r.deep_view().len() ==> #[trigger] is_found_before(
                found.deep_view(),
                r.deep_view()[i],
                r.deep_view()[j],
            ),
{
    let all = found.deep_view();
    law_fresh_entries(all, seen@);
    lemma_fresh_is_what_is_new(all, seen@);
    let fresh = r.deep_view();
    assert forall|i: int, j: int| 0 <= i < j < fresh.len() implies #[trigger] is_found_before(
        all,
        fresh[i],
        fresh[j],
    ) by {
        law_found_first_comes_first(all, seen@, i, j);
    }
}

proof fn lemma_fresh_is_what_is_new(found: Seq<Seq<char>>, seen: Set<Seq<char>>)
    ensures
        forall|e: Seq<char>| #[trigger]
            fresh_entries(found, seen).contains(e) <==> e.len() > 0 && !seen.contains(e)
                && exists|k: int| 0 <= k < found.len() && trimmed(#[trigger] found[k]) == e,
{
    let fresh = fresh_entries(found, seen);
    law_fresh_entries(found, seen);
    assert forall|e: Seq<char>| #[trigger] fresh.contains(e) <==> e.len() > 0 && !seen.contains(e)
        && exists|k: int| 0 <= k < found.len() && trimmed(#[trigger] found[k]) == e by {
        if fresh.contains(e) {
            let k = choose|k: int| 0 <= k < found.len() && trimmed(#[trigger] found[k]) == e;
            assert(trimmed(found[k]) == e);
        }
    }
}

/// What is brought into the conversation: the block of all that was found, is not
/// empty, and is in no block of the window, each text once, without the white space
/// around it, and in the order in which they were found. Where there is no such
/// text, nothing is brought.
pub proof fn law_inject(
    messages: &Vec<Json>,
    window: usize,
    found: &Vec<String>,
    start: usize,
    r: Option<String>,
)
    requires
        call_ensures(find_window_start, (messages, window), start),
        call_ensures(inject, (messages, window, found), r),
    ensures
        exists|fresh: Seq<Seq<char>>|
            {
                &&& opt_text(r) == if fresh.len() == 0 {
                    None
                } else {
                    Some(#[trigger] context_block(fresh))
                }
                &&& fresh.no_duplicates()
                &&& forall|e: Seq<char>| #[trigger]
                    fresh.contains(e) <==> e.len() > 0 && !is_held_from(
                        messages@,
                        start as int,
                        e,
                    ) && exists|k: int|
                        0 <= k < found.deep_view().len() && trimmed(
                            #[trigger] found.deep_view()[k],
                        ) == e
                &&& forall|i: int, j: int|
                    0 <= i < j < fresh.len() ==> #[trigger] is_found_before(
                        found.deep_view(),
                        fresh[i],
                        fresh[j],
                    )
            },
{
    let all = found.deep_view();
    let seen = seen_entries(messages@, start as int);
    let fresh = fresh_entries(all, seen);
    law_fresh_entries(all, seen);
    lemma_fresh_is_what_is_new(all, seen);
    assert forall|e: Seq<char>| #[trigger] fresh.contains(e) <==> e.len() > 0 && !is_held_from(
        messages@,
        start as int,
        e,
    ) && exists|k: int| 0 <= k < all.len() && trimmed(#[trigger] all[k]) == e by {
        lemma_seen(messages@, start as int, e);
    }
    assert forall|i: int, j: int| 0 <= i < j < fresh.len() implies #[trigger] is_found_before(
        all,
        fresh[i],
        fresh[j],
    ) by {
        law_found_first_comes_first(all, seen, i, j);
    }
    assert(opt_text(r) == if fresh.len() == 0 {
        None
    } else {
        Some(context_block(fresh))
    });
}

/// A memory is not brought a second time within the window: where a message holds a
/// block with it, and no more turns than the window is wide are counted from that
/// message on, or the width is zero, finding it alone brings nothing, whatever
/// replies of the model and of tools lie between. (The memory survives in the
/// block, and none before it ends the block.)
pub proof fn law_memory_is_not_brought_again(
    messages: &Vec<Json>,
    window: usize,
    at: int,
    entries: &Vec<String>,
    block: String,
    i: int,
    onward: &Vec<Json>,
    turns: usize,
    found: &Vec<String>,
    r: Option<String>,
)
    requires
        0 <= at < messages@.len(),
        call_ensures(write_block, (entries,), block),
        messages@[at].text_at("content"@) == Some(block@),
        0 <= i < entries@.len(),
        forall|k: int| 0 <= k < entries@.len() ==> is_entry((#[trigger] entries@[k])@),
        forall|k: int| 0 <= k < i ==> !closes_early((#[trigger] entries@[k])@),
        survives(entries@[i]@),
        onward@ == messages@.skip(at),
        call_ensures(count_user_turns, (onward,), turns),
        window == 0 || turns <= window,
        forall|k: int|
            0 <= k < found@.len() ==> trimmed((#[trigger] found@[k])@) == entries@[i]@,
        call_ensures(inject, (messages, window, found), r),
    ensures
        r is None,
{
    let written = entries.deep_view();
    assert(written.len() == entries@.len());
    assert forall|k: int| 0 <= k < written.len() implies is_entry(#[trigger] written[k]) by {
        assert(written[k] == entries@[k]@);
    }
    assert forall|k: int| 0 <= k < i implies !closes_early(#[trigger] written[k]) by {
        assert(written[k] == entries@[k]@);
    }
    assert(written[i] == entries@[i]@);
    law_in_window(messages@, window as nat, at);
    law_written_entry_is_read_back(written, i);
    lemma_block_is_context(written);
    assert(brought_by(messages@, at, written[i]));
    let all = found.deep_view();
    let start = window_start(messages@, window as nat) as int;
    assert forall|k: int| 0 <= k < all.len() implies trimmed(#[trigger] all[k]).len() == 0
        || seen_entries(messages@, start).contains(trimmed(all[k])) by {
        assert(all[k] == found@[k]@);
    }
    law_nothing_new_brings_nothing(messages@, window as nat, all);
}

} // verus!
