//! The message that brings memories into a conversation, and how its entries
//! are read back.
use crate::text::{
    has_return_ending, is_trimmed, join, joined, lemma_first_newline, lemma_join_lines,
    lemma_joined_push, lemma_lines_concat, lemma_lines_indent, lemma_lines_terminated,
    lemma_one_line, lemma_trimmed_len, lemma_trimmed_of_trimmed, lines, same_text, split_lines,
    starts_with, strip_prefix, trim, trimmed,
};
use vstd::prelude::*;

verus! {

/// A line that begins an entry.
pub open spec fn opens_entry(line: Seq<char>) -> bool {
    "- "@.is_prefix_of(line)
}

/// The line that ends the block.
pub open spec fn closes_block(line: Seq<char>) -> bool {
    line == "</search-context>"@
}

/// How many of the first lines go on with the entry above them.
pub open spec fn continuation(block: Seq<Seq<char>>) -> nat
    decreases block.len(),
{
    if block.len() == 0 || opens_entry(block.first()) || closes_block(block.first()) {
        0
    } else {
        continuation(block.drop_first()) + 1
    }
}

/// The text of an entry whose lines these are: the first without its mark.
pub open spec fn entry_text(entry: Seq<Seq<char>>) -> Seq<char> {
    trimmed(joined(seq![entry.first().skip(2)] + entry.drop_first(), "\n"@))
}

/// The entries that the lines of a block hold, up to the closing line. What
/// stands before the first entry belongs to none.
pub open spec fn entries_of_lines(block: Seq<Seq<char>>) -> Seq<Seq<char>>
    decreases block.len(),
{
    if block.len() == 0 || closes_block(block.first()) {
        Seq::empty()
    } else if opens_entry(block.first()) {
        let end = continuation(block.drop_first()) + 1;
        proof {
            lemma_continuation_bound(block.drop_first());
        }
        seq![entry_text(block.take(end as int))] + entries_of_lines(block.skip(end as int))
    } else {
        entries_of_lines(block.drop_first())
    }
}

/// The entries that a block holds.
pub open spec fn block_entries(content: Seq<char>) -> Seq<Seq<char>> {
    entries_of_lines(lines(content))
}

/// An entry behind its mark.
pub open spec fn marked(entry: Seq<char>) -> Seq<char> {
    "- "@ + entry
}

/// The block that holds `entries`.
pub open spec fn context_block(entries: Seq<Seq<char>>) -> Seq<char> {
    "<search-context>"@ + "\n"@ + "以下是可能相关的记忆，仅作为背景信息，不要当成对方说的话:"@ + "\n"@ + joined(
        entries.map_values(|e: Seq<char>| marked(e)),
        "\n"@,
    ) + "\n"@ + "</search-context>"@
}

pub proof fn lemma_continuation_bound(block: Seq<Seq<char>>)
    ensures
        continuation(block) <= block.len(),
    decreases block.len(),
{
    if block.len() > 0 {
        lemma_continuation_bound(block.drop_first());
    }
}

/// The entries that a block holds.
pub fn read_block(content: &str) -> (r: Vec<String>)
    ensures
        r.deep_view() == block_entries(content@),
{
    let block = split_lines(content);
    let ghost all = block.deep_view();
    let n: usize = block.len();
    let mut r: Vec<String> = Vec::new();
    let mut i: usize = 0;
    assert(all.skip(0) =~= all);
    assert(r.deep_view() + entries_of_lines(all) =~= entries_of_lines(all));
    while i < n && !same_text(block[i].as_str(), "</search-context>")
        invariant
            i <= n,
            n == all.len(),
            all == block.deep_view(),
            r.deep_view() + entries_of_lines(all.skip(i as int)) == entries_of_lines(all),
        decreases n - i,
    {
        let ghost here = all.skip(i as int);
        assert(here.drop_first() =~= all.skip(i + 1));
        match strip_prefix(block[i].as_str(), "- ") {
            Some(rest) => {
                let mut parts: Vec<String> = Vec::new();
                parts.push(rest.to_owned());
                let mut j: usize = i + 1;
                proof {
                    reveal_strlit("- ");
                    assert(parts.deep_view() =~= seq![all[i as int].skip(2)] + all.subrange(
                        i + 1,
                        j as int,
                    ));
                }
                while j < n && !same_text(block[j].as_str(), "</search-context>") && !starts_with(
                    block[j].as_str(),
                    "- ",
                )
                    invariant
                        i < j <= n,
                        n == all.len(),
                        all == block.deep_view(),
                        parts.deep_view() == seq![all[i as int].skip(2)] + all.subrange(
                            i + 1,
                            j as int,
                        ),
                        continuation(all.skip(i + 1)) == j - i - 1 + continuation(
                            all.skip(j as int),
                        ),
                    decreases n - j,
                {
                    let ghost before = parts.deep_view();
                    parts.push(block[j].clone());
                    proof {
                        assert(all.skip(j as int).drop_first() =~= all.skip(j + 1));
                        assert(parts.deep_view() =~= before.push(all[j as int]));
                        assert(parts.deep_view() =~= seq![all[i as int].skip(2)] + all.subrange(
                            i + 1,
                            j + 1,
                        ));
                    }
                    j += 1;
                }
                let ghost before = r.deep_view();
                let whole = join(&parts, "\n");
                let text = trim(whole.as_str()).to_owned();
                proof {
                    assert(continuation(all.skip(j as int)) == 0);
                    let entry = here.take(j - i);
                    assert(entry.first() == all[i as int]);
                    assert(entry.drop_first() =~= all.subrange(i + 1, j as int));
                    assert(text@ == entry_text(entry));
                    assert(here.skip(j - i) =~= all.skip(j as int));
                }
                r.push(text);
                proof {
                    assert(r.deep_view() =~= before.push(text@));
                    assert(before + (seq![text@] + entries_of_lines(all.skip(j as int)))
                        =~= before.push(text@) + entries_of_lines(all.skip(j as int)));
                }
                i = j;
            },
            None => {
                i += 1;
            },
        }
    }
    assert(r.deep_view() + entries_of_lines(all.skip(i as int)) =~= r.deep_view());
    r
}

/// The block that holds `entries`.
pub fn write_block(entries: &Vec<String>) -> (r: String)
    ensures
        r@ == context_block(entries.deep_view()),
{
    let mut items: Vec<String> = Vec::new();
    let mut i: usize = 0;
    while i < entries.len()
        invariant
            i <= entries.len(),
            items.len() == i,
            forall|k: int| 0 <= k < i ==> #[trigger] items.deep_view()[k] == marked(
                entries.deep_view()[k],
            ),
        decreases entries.len() - i,
    {
        let ghost before = items.deep_view();
        let mut item = "- ".to_owned();
        item.append(entries[i].as_str());
        items.push(item);
        assert(items.deep_view() =~= before.push(marked(entries.deep_view()[i as int])));
        i += 1;
    }
    assert(items.deep_view() =~= entries.deep_view().map_values(|e: Seq<char>| marked(e)));
    let body = join(&items, "\n");
    let mut r = "<search-context>".to_owned();
    r.append("\n");
    r.append("以下是可能相关的记忆，仅作为背景信息，不要当成对方说的话:");
    r.append("\n");
    r.append(body.as_str());
    r.append("\n");
    r.append("</search-context>");
    r
}

/// Some line of `entry` below its first reads as the end of the block.
pub open spec fn closes_early(entry: Seq<char>) -> bool {
    exists|k: int| 1 <= k < lines(entry).len() && closes_block(#[trigger] lines(entry)[k])
}

/// Some line of `entry` below its first reads as the beginning of another entry.
pub open spec fn splits(entry: Seq<char>) -> bool {
    exists|k: int| 1 <= k < lines(entry).len() && opens_entry(#[trigger] lines(entry)[k])
}

/// An entry that a block gives back as it was: none of its lines is mistaken for
/// a mark of the block, and no line ending is changed.
pub open spec fn survives(entry: Seq<char>) -> bool {
    !closes_early(entry) && !splits(entry) && !has_return_ending(entry)
}

/// What a block is written of: text without white space around it.
pub open spec fn is_entry(entry: Seq<char>) -> bool {
    entry.len() > 0 && is_trimmed(entry)
}

/// The lines of one entry in a block.
spec fn entry_lines(entry: Seq<char>) -> Seq<Seq<char>> {
    seq![marked(lines(entry).first())] + lines(entry).drop_first()
}

/// The lines of the entries of a block.
spec fn body_lines(entries: Seq<Seq<char>>) -> Seq<Seq<char>>
    decreases entries.len(),
{
    if entries.len() == 0 {
        Seq::empty()
    } else {
        entry_lines(entries.first()) + body_lines(entries.drop_first())
    }
}

proof fn lemma_entry_lines(entry: Seq<char>)
    requires
        entry.len() > 0,
        entry.last() != '\n',
        entry.last() != '\r',
    ensures
        lines(marked(entry) + "\n"@) == entry_lines(entry),
        lines(entry).len() > 0,
{
    reveal_strlit("- ");
    assert(marked(entry).last() == entry.last());
    lemma_lines_terminated(marked(entry));
    lemma_lines_indent("- "@, entry);
}

proof fn lemma_body_lines(entries: Seq<Seq<char>>)
    requires
        entries.len() > 0,
        forall|k: int| 0 <= k < entries.len() ==> is_entry(#[trigger] entries[k]),
    ensures
        lines(
            joined(entries.map_values(|e: Seq<char>| marked(e)), "\n"@) + "\n"@
                + "</search-context>"@,
        ) == body_lines(entries) + seq!["</search-context>"@],
    decreases entries.len(),
{
    let marks = entries.map_values(|e: Seq<char>| marked(e));
    let close = "</search-context>"@;
    let first = marked(entries[0]) + "\n"@;
    reveal_strlit("\n");
    reveal_strlit("</search-context>");
    assert(is_entry(entries[0]));
    lemma_entry_lines(entries[0]);
    assert(first.last() == '\n');
    if entries.len() == 1 {
        assert(joined(marks, "\n"@) == marked(entries[0]));
        lemma_lines_concat(first, close);
        assert forall|j: int| 0 <= j < close.len() implies close[j] != '\n' by {}
        lemma_one_line(close);
        assert(body_lines(entries.drop_first()) =~= Seq::empty());
        assert(body_lines(entries) =~= entry_lines(entries[0]));
    } else {
        let rest = entries.drop_first();
        let rest_marks = rest.map_values(|e: Seq<char>| marked(e));
        assert(marks.drop_first() =~= rest_marks);
        assert forall|k: int| 0 <= k < rest.len() implies is_entry(#[trigger] rest[k]) by {
            assert(is_entry(entries[k + 1]));
        }
        lemma_body_lines(rest);
        let tail = joined(rest_marks, "\n"@) + "\n"@ + close;
        assert(joined(marks, "\n"@) + "\n"@ + close =~= first + tail);
        lemma_lines_concat(first, tail);
        assert(lines(first + tail) =~= body_lines(entries) + seq![close]);
    }
}

proof fn lemma_block_lines(entries: Seq<Seq<char>>)
    requires
        entries.len() > 0,
        forall|k: int| 0 <= k < entries.len() ==> is_entry(#[trigger] entries[k]),
    ensures
        block_entries(context_block(entries)) == entries_of_lines(
            body_lines(entries) + seq!["</search-context>"@],
        ),
{
    let open = "<search-context>"@;
    let head = "以下是可能相关的记忆，仅作为背景信息，不要当成对方说的话:"@;
    let close = "</search-context>"@;
    let tail = joined(entries.map_values(|e: Seq<char>| marked(e)), "\n"@) + "\n"@ + close;
    reveal_strlit("\n");
    reveal_strlit("- ");
    reveal_strlit("<search-context>");
    reveal_strlit("以下是可能相关的记忆，仅作为背景信息，不要当成对方说的话:");
    reveal_strlit("</search-context>");
    assert forall|j: int| 0 <= j < open.len() implies open[j] != '\n' by {}
    assert forall|j: int| 0 <= j < head.len() implies head[j] != '\n' by {}
    lemma_one_line(open);
    lemma_one_line(head);
    lemma_lines_terminated(open);
    lemma_lines_terminated(head);
    lemma_lines_concat(open + "\n"@, head + "\n"@ + tail);
    lemma_lines_concat(head + "\n"@, tail);
    lemma_body_lines(entries);
    assert(context_block(entries) =~= (open + "\n"@) + (head + "\n"@ + tail));
    assert(head + "\n"@ + tail =~= (head + "\n"@) + tail);
    let body = body_lines(entries) + seq![close];
    let all = lines(context_block(entries));
    assert(all =~= seq![open] + (seq![head] + body));
    assert(all.drop_first() =~= seq![head] + body);
    assert((seq![head] + body).drop_first() =~= body);
    assert(open[0] != "- "@[0] && head[0] != "- "@[0]);
    assert(open.len() != close.len());
    assert(head[0] != close[0]);
    assert(!opens_entry(open) && !opens_entry(head));
    assert(!closes_block(open) && !closes_block(head));
    assert(all.first() == open);
    assert(entries_of_lines(all) == entries_of_lines(seq![head] + body));
    assert((seq![head] + body).first() == head);
    assert(entries_of_lines(seq![head] + body) == entries_of_lines(body));
}

/// Lines that begin with a mark do not change what the lines above them hold.
proof fn lemma_continuation_concat(a: Seq<Seq<char>>, b: Seq<Seq<char>>)
    requires
        b.len() > 0 ==> opens_entry(b.first()) || closes_block(b.first()),
    ensures
        continuation(a + b) == continuation(a),
    decreases a.len(),
{
    if a.len() == 0 {
        assert(a + b =~= b);
    } else {
        assert((a + b).drop_first() =~= a.drop_first() + b);
        lemma_continuation_concat(a.drop_first(), b);
    }
}

proof fn lemma_entries_concat(a: Seq<Seq<char>>, b: Seq<Seq<char>>)
    requires
        forall|k: int| 0 <= k < a.len() ==> !closes_block(#[trigger] a[k]),
        b.len() > 0 ==> opens_entry(b.first()) || closes_block(b.first()),
    ensures
        entries_of_lines(a + b) == entries_of_lines(a) + entries_of_lines(b),
    decreases a.len(),
{
    if a.len() == 0 {
        assert(a + b =~= b);
        assert(entries_of_lines(a) + entries_of_lines(b) =~= entries_of_lines(b));
    } else {
        assert(!closes_block(a[0]));
        let rest = a.drop_first();
        assert((a + b).drop_first() =~= rest + b);
        if opens_entry(a.first()) {
            lemma_continuation_bound(rest);
            lemma_continuation_concat(rest, b);
            let end = continuation(rest) as int + 1;
            assert((a + b).take(end) =~= a.take(end));
            assert((a + b).skip(end) =~= a.skip(end) + b);
            let tail = a.skip(end);
            assert forall|k: int| 0 <= k < tail.len() implies !closes_block(#[trigger] tail[k]) by {
                assert(!closes_block(a[k + end]));
            }
            lemma_entries_concat(tail, b);
            assert(entries_of_lines(a + b) =~= entries_of_lines(a) + entries_of_lines(b));
        } else {
            assert forall|k: int| 0 <= k < rest.len() implies !closes_block(#[trigger] rest[k]) by {
                assert(!closes_block(a[k + 1]));
            }
            lemma_entries_concat(rest, b);
        }
    }
}

proof fn lemma_entry_lines_open(entry: Seq<char>)
    ensures
        entry_lines(entry).len() > 0,
        opens_entry(entry_lines(entry).first()),
        !closes_block(entry_lines(entry).first()),
{
    let first = entry_lines(entry).first();
    reveal_strlit("- ");
    reveal_strlit("</search-context>");
    assert(first.subrange(0, 2) =~= "- "@);
    assert(first[0] == '-');
}

proof fn lemma_entry_lines_close(entry: Seq<char>)
    requires
        !closes_early(entry),
        lines(entry).len() > 0,
    ensures
        forall|k: int|
            0 <= k < entry_lines(entry).len() ==> !closes_block(#[trigger] entry_lines(entry)[k]),
{
    lemma_entry_lines_open(entry);
    let ls = entry_lines(entry);
    assert forall|k: int| 0 <= k < ls.len() implies !closes_block(#[trigger] ls[k]) by {
        if k > 0 {
            assert(ls[k] == lines(entry)[k]);
        }
    }
}

/// The lines of an entry that survives hold that entry and nothing else.
proof fn lemma_entry_survives(entry: Seq<char>)
    requires
        is_entry(entry),
        survives(entry),
    ensures
        entries_of_lines(entry_lines(entry)) == seq![entry],
{
    lemma_entry_is_held(entry);
    lemma_trimmed_of_trimmed(entry);
}

/// The same of an entry with white space around it, which is not held with it.
proof fn lemma_entry_is_held(entry: Seq<char>)
    requires
        entry.len() > 0,
        entry.last() != '\n',
        entry.last() != '\r',
        survives(entry),
    ensures
        entries_of_lines(entry_lines(entry)) == seq![trimmed(entry)],
{
    let ls = entry_lines(entry);
    let below = ls.drop_first();
    lemma_entry_lines(entry);
    lemma_entry_lines_open(entry);
    assert(below =~= lines(entry).drop_first());
    assert forall|k: int| 0 <= k < below.len() implies !opens_entry(#[trigger] below[k])
        && !closes_block(below[k]) by {
        assert(below[k] == lines(entry)[k + 1]);
    }
    lemma_continuation_all(below);
    reveal_strlit("- ");
    assert(ls.first().skip(2) =~= lines(entry).first());
    assert(ls.take(ls.len() as int) =~= ls);
    assert(seq![lines(entry).first()] + lines(entry).drop_first() =~= lines(entry));
    lemma_join_lines(entry);
    assert(entry_text(ls) == trimmed(entry));
    assert(ls.skip(ls.len() as int) =~= Seq::empty());
    assert(entries_of_lines(Seq::<Seq<char>>::empty()) =~= Seq::empty());
    assert(entries_of_lines(ls) =~= seq![trimmed(entry)]);
}

proof fn lemma_continuation_all(block: Seq<Seq<char>>)
    requires
        forall|k: int|
            0 <= k < block.len() ==> !opens_entry(#[trigger] block[k]) && !closes_block(block[k]),
    ensures
        continuation(block) == block.len(),
    decreases block.len(),
{
    if block.len() > 0 {
        assert(!opens_entry(block[0]));
        let rest = block.drop_first();
        assert forall|k: int| 0 <= k < rest.len() implies !opens_entry(#[trigger] rest[k])
            && !closes_block(rest[k]) by {
            assert(!opens_entry(block[k + 1]));
        }
        lemma_continuation_all(rest);
    }
}

proof fn lemma_body_lines_concat(a: Seq<Seq<char>>, b: Seq<Seq<char>>)
    ensures
        body_lines(a + b) == body_lines(a) + body_lines(b),
    decreases a.len(),
{
    if a.len() == 0 {
        assert(a + b =~= b);
        assert(body_lines(a) + body_lines(b) =~= body_lines(b));
    } else {
        assert((a + b).drop_first() =~= a.drop_first() + b);
        lemma_body_lines_concat(a.drop_first(), b);
        assert(body_lines(a + b) =~= body_lines(a) + body_lines(b));
    }
}

proof fn lemma_body_lines_close(entries: Seq<Seq<char>>)
    requires
        forall|k: int|
            0 <= k < entries.len() ==> is_entry(#[trigger] entries[k]) && !closes_early(entries[k]),
    ensures
        forall|k: int|
            0 <= k < body_lines(entries).len() ==> !closes_block(
                #[trigger] body_lines(entries)[k],
            ),
    decreases entries.len(),
{
    if entries.len() > 0 {
        assert(is_entry(entries[0]));
        let rest = entries.drop_first();
        lemma_entry_lines(entries[0]);
        lemma_entry_lines_close(entries[0]);
        assert forall|k: int| 0 <= k < rest.len() implies is_entry(#[trigger] rest[k])
            && !closes_early(rest[k]) by {
            assert(is_entry(entries[k + 1]));
        }
        lemma_body_lines_close(rest);
        let n = entry_lines(entries[0]).len();
        assert forall|k: int| 0 <= k < body_lines(entries).len() implies !closes_block(
            #[trigger] body_lines(entries)[k],
        ) by {
            if k < n {
                assert(body_lines(entries)[k] == entry_lines(entries[0])[k]);
            } else {
                assert(body_lines(entries)[k] == body_lines(rest)[k - n]);
            }
        }
    }
}

/// What a block is written of is what is read back from it: an entry that
/// survives is found again, whatever the other entries are, unless one before it
/// ends the block.
pub proof fn law_written_entry_is_read_back(entries: Seq<Seq<char>>, i: int)
    requires
        0 <= i < entries.len(),
        forall|k: int| 0 <= k < entries.len() ==> is_entry(#[trigger] entries[k]),
        forall|k: int| 0 <= k < i ==> !closes_early(#[trigger] entries[k]),
        survives(entries[i]),
    ensures
        block_entries(context_block(entries)).contains(entries[i]),
{
    let close = seq!["</search-context>"@];
    let before = entries.take(i);
    let entry = entries[i];
    let after = entries.skip(i + 1);
    lemma_block_lines(entries);
    assert(entries =~= before + (seq![entry] + after));
    lemma_body_lines_concat(before, seq![entry] + after);
    assert((seq![entry] + after).drop_first() =~= after);
    let a = body_lines(before);
    let b = entry_lines(entry);
    let c = body_lines(after) + close;
    assert(body_lines(entries) + close =~= a + (b + c));
    assert forall|k: int| 0 <= k < before.len() implies is_entry(#[trigger] before[k])
        && !closes_early(before[k]) by {
        assert(is_entry(entries[k]));
    }
    lemma_body_lines_close(before);
    assert(is_entry(entry));
    lemma_entry_lines(entry);
    lemma_entry_lines_open(entry);
    lemma_entry_lines_close(entry);
    if after.len() > 0 {
        lemma_entry_lines_open(after.first());
        assert(c.first() == entry_lines(after.first()).first());
    } else {
        assert(c.first() == close[0]);
    }
    assert((b + c).first() == b.first());
    lemma_entries_concat(a, b + c);
    lemma_entries_concat(b, c);
    lemma_entry_survives(entry);
    let found = entries_of_lines(a + (b + c));
    let n = entries_of_lines(a).len() as int;
    assert(found =~= entries_of_lines(a) + (seq![entry] + entries_of_lines(c)));
    assert(found[n] == entry);
}

/// A block whose entries all survive gives back those entries, in order.
pub proof fn law_block_gives_back_its_entries(entries: Seq<Seq<char>>)
    requires
        entries.len() > 0,
        forall|k: int|
            0 <= k < entries.len() ==> is_entry(#[trigger] entries[k]) && survives(entries[k]),
    ensures
        block_entries(context_block(entries)) == entries,
{
    assert forall|k: int| 0 <= k < entries.len() implies is_entry(#[trigger] entries[k])
        && !closes_early(entries[k]) by {}
    lemma_block_lines(entries);
    lemma_body_lines_close(entries);
    let close = seq!["</search-context>"@];
    lemma_entries_concat(body_lines(entries), close);
    assert(entries_of_lines(close) =~= Seq::empty());
    lemma_body_survives(entries);
    assert(block_entries(context_block(entries)) =~= entries);
}

proof fn lemma_body_survives(entries: Seq<Seq<char>>)
    requires
        forall|k: int|
            0 <= k < entries.len() ==> is_entry(#[trigger] entries[k]) && survives(entries[k]),
    ensures
        entries_of_lines(body_lines(entries)) == entries,
    decreases entries.len(),
{
    if entries.len() == 0 {
        assert(entries_of_lines(body_lines(entries)) =~= entries);
    } else {
        let rest = entries.drop_first();
        assert(is_entry(entries[0]) && survives(entries[0]));
        assert forall|k: int| 0 <= k < rest.len() implies is_entry(#[trigger] rest[k]) && survives(
            rest[k],
        ) by {
            assert(is_entry(entries[k + 1]));
        }
        lemma_body_survives(rest);
        lemma_entry_lines(entries[0]);
        lemma_entry_lines_close(entries[0]);
        lemma_entry_survives(entries[0]);
        if rest.len() > 0 {
            lemma_entry_lines_open(rest[0]);
            assert(body_lines(rest).first() == entry_lines(rest[0]).first());
        }
        lemma_entries_concat(entry_lines(entries[0]), body_lines(rest));
        assert(entries_of_lines(body_lines(entries)) =~= entries);
    }
}

/// The length of lines, each with its line feed.
spec fn total_len(block: Seq<Seq<char>>) -> nat
    decreases block.len(),
{
    if block.len() == 0 {
        0
    } else {
        block.first().len() + 1 + total_len(block.drop_first())
    }
}

proof fn lemma_total_len_concat(a: Seq<Seq<char>>, b: Seq<Seq<char>>)
    ensures
        total_len(a + b) == total_len(a) + total_len(b),
    decreases a.len(),
{
    if a.len() == 0 {
        assert(a + b =~= b);
    } else {
        assert((a + b).drop_first() =~= a.drop_first() + b);
        lemma_total_len_concat(a.drop_first(), b);
    }
}

proof fn lemma_joined_len(parts: Seq<Seq<char>>)
    requires
        parts.len() > 0,
    ensures
        joined(parts, "\n"@).len() + 1 == total_len(parts),
    decreases parts.len(),
{
    reveal_strlit("\n");
    if parts.len() == 1 {
        assert(total_len(parts.drop_first()) == 0);
    } else {
        lemma_joined_len(parts.drop_first());
    }
}

/// No entry is longer than the lines that it is read from.
proof fn lemma_entry_len(block: Seq<Seq<char>>)
    ensures
        forall|k: int|
            0 <= k < entries_of_lines(block).len() ==> #[trigger] entries_of_lines(block)[k].len()
                + 3 <= total_len(block),
    decreases block.len(),
{
    if block.len() == 0 || closes_block(block.first()) {
    } else if opens_entry(block.first()) {
        let end = continuation(block.drop_first()) as int + 1;
        lemma_continuation_bound(block.drop_first());
        let top = block.take(end);
        let rest = block.skip(end);
        lemma_entry_len(rest);
        lemma_entry_text_len(top);
        assert(block =~= top + rest);
        lemma_total_len_concat(top, rest);
        let found = entries_of_lines(block);
        assert forall|k: int| 0 <= k < found.len() implies #[trigger] found[k].len() + 3
            <= total_len(block) by {
            if k > 0 {
                assert(found[k] == entries_of_lines(rest)[k - 1]);
            }
        }
    } else {
        let rest = block.drop_first();
        lemma_entry_len(rest);
        assert(entries_of_lines(block) == entries_of_lines(rest));
        assert(total_len(block) >= total_len(rest));
        assert forall|k: int| 0 <= k < entries_of_lines(block).len() implies #[trigger]
            entries_of_lines(block)[k].len() + 3 <= total_len(block) by {
            assert(entries_of_lines(rest)[k].len() + 3 <= total_len(rest));
        }
    }
}

proof fn lemma_entry_text_len(entry: Seq<Seq<char>>)
    requires
        entry.len() > 0,
        opens_entry(entry.first()),
    ensures
        entry_text(entry).len() + 3 <= total_len(entry),
{
    reveal_strlit("- ");
    let parts = seq![entry.first().skip(2)] + entry.drop_first();
    lemma_joined_len(parts);
    assert(parts.drop_first() =~= entry.drop_first());
    lemma_trimmed_len(joined(parts, "\n"@));
}

/// Lines below the closing line hold nothing.
proof fn lemma_entries_closed(block: Seq<Seq<char>>, below: Seq<Seq<char>>)
    ensures
        entries_of_lines(block + (seq!["</search-context>"@] + below)) == entries_of_lines(block),
    decreases block.len(),
{
    let close = seq!["</search-context>"@] + below;
    assert(close.first() == "</search-context>"@);
    if block.len() == 0 {
        assert(block + close =~= close);
    } else {
        let rest = block.drop_first();
        assert((block + close).drop_first() =~= rest + close);
        if closes_block(block.first()) {
        } else if opens_entry(block.first()) {
            lemma_continuation_bound(rest);
            lemma_continuation_concat(rest, close);
            let end = continuation(rest) as int + 1;
            assert((block + close).take(end) =~= block.take(end));
            assert((block + close).skip(end) =~= block.skip(end) + close);
            lemma_entries_closed(block.skip(end), below);
        } else {
            lemma_entries_closed(rest, below);
        }
    }
}

proof fn lemma_continuation_stops(block: Seq<Seq<char>>, k: int)
    requires
        0 <= k < block.len(),
        opens_entry(block[k]) || closes_block(block[k]),
    ensures
        continuation(block) <= k,
    decreases block.len(),
{
    if k > 0 && !opens_entry(block.first()) && !closes_block(block.first()) {
        lemma_continuation_stops(block.drop_first(), k - 1);
    }
}

/// The entries that do not survive are lost, each of them: a block of one entry
/// gives that entry back if and only if it survives.
pub proof fn law_only_survivors_are_read_back(entry: Seq<char>)
    requires
        is_entry(entry),
    ensures
        block_entries(context_block(seq![entry])).contains(entry) <==> survives(entry),
{
    let entries = seq![entry];
    let ls = entry_lines(entry);
    let below = ls.drop_first();
    assert(entries[0] == entry);
    if survives(entry) {
        law_written_entry_is_read_back(entries, 0);
    } else {
        lemma_block_lines(entries);
        assert(entries.drop_first() =~= Seq::empty());
        assert(body_lines(entries.drop_first()) =~= Seq::empty());
        assert(body_lines(entries) =~= ls);
        let none = Seq::<Seq<char>>::empty();
        assert(seq!["</search-context>"@] + none =~= seq!["</search-context>"@]);
        lemma_entries_closed(ls, none);
        lemma_entry_lines(entry);
        lemma_entry_lines_open(entry);
        lemma_join_lines(entry);
        lemma_joined_len(lines(entry));
        reveal_strlit("- ");
        assert(below =~= lines(entry).drop_first());
        assert(total_len(ls) == total_len(lines(entry)) + 2);
        lemma_entry_len(ls);
        let found = entries_of_lines(ls);
        if has_return_ending(entry) {
            assert(forall|k: int|
                0 <= k < found.len() ==> #[trigger] found[k].len() < entry.len());
        } else {
            let k = if splits(entry) {
                choose|k: int|
                    1 <= k < lines(entry).len() && opens_entry(#[trigger] lines(entry)[k])
            } else {
                choose|k: int|
                    1 <= k < lines(entry).len() && closes_block(#[trigger] lines(entry)[k])
            };
            assert(below[k - 1] == lines(entry)[k]);
            lemma_continuation_stops(below, k - 1);
            let end = continuation(below) as int + 1;
            let top = ls.take(end);
            let rest = ls.skip(end);
            assert(ls =~= top + rest);
            lemma_total_len_concat(top, rest);
            assert(top.len() > 0 && rest.len() > 0);
            assert(total_len(top) > 0 && total_len(rest) > 0);
            assert(top.first() == ls.first());
            lemma_entry_text_len(top);
            lemma_entry_len(rest);
            assert forall|j: int| 0 <= j < found.len() implies #[trigger] found[j].len()
                < entry.len() by {
                if j > 0 {
                    assert(found[j] == entries_of_lines(rest)[j - 1]);
                }
            }
        }
    }
}

/// A block with one entry is the opening mark, a heading, the entry behind a dash,
/// and the closing mark, each on lines of its own.
pub proof fn law_block_of_one_entry(entries: &Vec<String>, r: String)
    requires
        entries@.len() == 1,
        call_ensures(write_block, (entries,), r),
    ensures
        r@ == "<search-context>\n以下是可能相关的记忆，仅作为背景信息，不要当成对方说的话:\n- "@
            + entries@[0]@ + "\n</search-context>"@,
{
    reveal_strlit("<search-context>\n以下是可能相关的记忆，仅作为背景信息，不要当成对方说的话:\n- ");
    reveal_strlit("<search-context>");
    reveal_strlit("以下是可能相关的记忆，仅作为背景信息，不要当成对方说的话:");
    reveal_strlit("\n");
    reveal_strlit("- ");
    reveal_strlit("</search-context>");
    reveal_strlit("\n</search-context>");
    let head = "<search-context>\n以下是可能相关的记忆，仅作为背景信息，不要当成对方说的话:\n- "@;
    let line = "以下是可能相关的记忆，仅作为背景信息，不要当成对方说的话:"@;
    let e = entries@[0]@;
    let marks = entries.deep_view().map_values(|e: Seq<char>| marked(e));
    assert(entries.deep_view()[0] == e);
    assert(marks.len() == 1 && marks[0] == marked(e));
    assert(joined(marks, "\n"@) == marked(e));
    assert(head =~= "<search-context>"@ + "\n"@ + line + "\n"@ + "- "@);
    assert("\n</search-context>"@ =~= "\n"@ + "</search-context>"@);
    assert(r@ =~= head + e + "\n</search-context>"@);
}

/// One entry more is written behind the others, above the closing mark, and
/// changes nothing of them.
pub proof fn law_block_of_one_entry_more(
    entries: &Vec<String>,
    entry: Seq<char>,
    more: &Vec<String>,
    r: String,
    longer: String,
)
    requires
        entries@.len() > 0,
        more.deep_view() == entries.deep_view().push(entry),
        call_ensures(write_block, (entries,), r),
        call_ensures(write_block, (more,), longer),
    ensures
        "\n</search-context>"@.is_suffix_of(r@),
        longer@ == r@.take(r@.len() - "\n</search-context>"@.len()) + "\n- "@ + entry
            + "\n</search-context>"@,
{
    reveal_strlit("\n");
    reveal_strlit("- ");
    reveal_strlit("\n- ");
    reveal_strlit("</search-context>");
    reveal_strlit("\n</search-context>");
    let close = "\n</search-context>"@;
    assert(close =~= "\n"@ + "</search-context>"@);
    assert("\n- "@ =~= "\n"@ + "- "@);
    let a = entries.deep_view().map_values(|e: Seq<char>| marked(e));
    let b = more.deep_view().map_values(|e: Seq<char>| marked(e));
    assert(entries.deep_view().len() == entries@.len());
    assert(b =~= a.push(marked(entry)));
    lemma_joined_push(a, marked(entry), "\n"@);
    let body = "<search-context>"@ + "\n"@
        + "以下是可能相关的记忆，仅作为背景信息，不要当成对方说的话:"@ + "\n"@ + joined(a, "\n"@);
    assert(r@ =~= body + close);
    assert(r@.subrange(r@.len() - close.len(), r@.len() as int) =~= close);
    assert(r@.take(r@.len() - close.len()) =~= body);
    assert(longer@ =~= body + "\n- "@ + entry + close);
}

/// A block gives back what was written into it, in order, where each entry is text
/// without white space around it and with no line that reads as a mark.
pub proof fn law_what_is_written_is_read(
    entries: &Vec<String>,
    content: &str,
    text: String,
    r: Vec<String>,
)
    requires
        entries@.len() > 0,
        forall|k: int|
            0 <= k < entries@.len() ==> is_entry((#[trigger] entries@[k])@) && survives(
                entries@[k]@,
            ),
        call_ensures(write_block, (entries,), text),
        content@ == text@,
        call_ensures(read_block, (content,), r),
    ensures
        r.deep_view() == entries.deep_view(),
{
    let all = entries.deep_view();
    assert(all.len() == entries@.len());
    assert forall|k: int| 0 <= k < all.len() implies is_entry(#[trigger] all[k]) && survives(
        all[k],
    ) by {
        assert(all[k] == entries@[k]@);
    }
    law_block_gives_back_its_entries(all);
}

/// What stands behind a dash is an entry, without the white space around it, with
/// all lines that follow up to the next dash or the closing mark.
pub proof fn law_entry_is_read(
    entry: Seq<char>,
    rest: &str,
    whole: &str,
    r: Vec<String>,
    others: Vec<String>,
)
    requires
        entry.len() > 0,
        entry.last() != '\n',
        entry.last() != '\r',
        !has_return_ending(entry),
        forall|k: int|
            1 <= k < lines(entry).len() ==> !"- "@.is_prefix_of(#[trigger] lines(entry)[k])
                && lines(entry)[k] != "</search-context>"@,
        rest@.len() > 0 ==> "- "@.is_prefix_of(lines(rest@)[0]) || lines(rest@)[0]
            == "</search-context>"@,
        whole@ == "- "@ + entry + "\n"@ + rest@,
        call_ensures(read_block, (whole,), r),
        call_ensures(read_block, (rest,), others),
    ensures
        r.deep_view() == seq![trimmed(entry)] + others.deep_view(),
{
    reveal_strlit("\n");
    let top = marked(entry) + "\n"@;
    assert(whole@ =~= top + rest@);
    lemma_lines_concat(top, rest@);
    lemma_entry_lines(entry);
    assert(survives(entry));
    lemma_entry_lines_close(entry);
    lemma_entry_is_held(entry);
    lemma_entries_concat(entry_lines(entry), lines(rest@));
}

/// A line before the first dash belongs to no entry, the heading among them.
pub proof fn law_line_before_the_entries_is_skipped(
    line: Seq<char>,
    rest: &str,
    whole: &str,
    r: Vec<String>,
    others: Vec<String>,
)
    requires
        !line.contains('\n'),
        !line.contains('\r'),
        !"- "@.is_prefix_of(line),
        line != "</search-context>"@,
        whole@ == line + "\n"@ + rest@,
        call_ensures(read_block, (whole,), r),
        call_ensures(read_block, (rest,), others),
    ensures
        r.deep_view() == others.deep_view(),
{
    reveal_strlit("\n");
    let n = line.len() as int;
    assert forall|j: int| 0 <= j < n implies whole@[j] != '\n' by {
        assert(line.contains(line[j]));
    }
    lemma_first_newline(whole@, n);
    assert(whole@.take(n) =~= line);
    assert(whole@.skip(n + 1) =~= rest@);
    if n > 0 {
        assert(line.contains(line[n - 1]));
    }
    assert(lines(whole@) == seq![line] + lines(rest@));
    assert(lines(whole@).drop_first() =~= lines(rest@));
    assert(lines(whole@).first() == line);
}

/// Nothing is read behind the closing mark, and its absence changes nothing.
pub proof fn law_nothing_is_read_behind_the_end(
    before: &str,
    behind: Seq<char>,
    whole: &str,
    r: Vec<String>,
    others: Vec<String>,
)
    requires
        before@.len() > 0 ==> before@.last() == '\n',
        whole@ == before@ + "</search-context>"@ + "\n"@ + behind || whole@ == before@
            + "</search-context>"@,
        call_ensures(read_block, (whole,), r),
        call_ensures(read_block, (before,), others),
    ensures
        r.deep_view() == others.deep_view(),
{
    reveal_strlit("\n");
    reveal_strlit("</search-context>");
    let close = "</search-context>"@;
    assert forall|j: int| 0 <= j < close.len() implies close[j] != '\n' by {}
    lemma_one_line(close);
    lemma_lines_terminated(close);
    let end = if whole@ == before@ + close {
        close
    } else {
        close + "\n"@ + behind
    };
    let below = if whole@ == before@ + close {
        Seq::empty()
    } else {
        lines(behind)
    };
    if whole@ != before@ + close {
        lemma_lines_concat(close + "\n"@, behind);
    }
    assert(lines(end) =~= seq![close] + below);
    assert(whole@ =~= before@ + end);
    if before@.len() > 0 {
        lemma_lines_concat(before@, end);
    } else {
        assert(before@ + end =~= end);
        assert(lines(before@) + lines(end) =~= lines(end));
    }
    lemma_entries_closed(lines(before@), below);
}

} // verus!
