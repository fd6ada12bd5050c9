//! Text as sequences of characters: trimming, lines, joining, comparing and
//! reading numbers.
use vstd::prelude::*;

verus! {

/// The view of a text that may be absent.
pub open spec fn opt_text(text: Option<String>) -> Option<Seq<char>> {
    match text {
        Some(t) => Some(t@),
        None => None,
    }
}

/// The view of an outcome whose two sides are texts.
pub open spec fn result_text(outcome: Result<String, String>) -> Result<Seq<char>, Seq<char>> {
    match outcome {
        Ok(t) => Ok(t@),
        Err(t) => Err(t@),
    }
}

/// The characters with the Unicode property White_Space.
pub open spec fn is_white_space(c: char) -> bool {
    ||| '\u{9}' <= c <= '\u{d}'
    ||| c == ' '
    ||| c == '\u{85}'
    ||| c == '\u{a0}'
    ||| c == '\u{1680}'
    ||| '\u{2000}' <= c <= '\u{200a}'
    ||| c == '\u{2028}'
    ||| c == '\u{2029}'
    ||| c == '\u{202f}'
    ||| c == '\u{205f}'
    ||| c == '\u{3000}'
}

/// `s` without its leading white space.
pub open spec fn trim_start(s: Seq<char>) -> Seq<char>
    decreases s.len(),
{
    if s.len() > 0 && is_white_space(s.first()) {
        trim_start(s.drop_first())
    } else {
        s
    }
}

/// `s` without its trailing white space.
pub open spec fn trim_end(s: Seq<char>) -> Seq<char>
    decreases s.len(),
{
    if s.len() > 0 && is_white_space(s.last()) {
        trim_end(s.drop_last())
    } else {
        s
    }
}

/// `s` without the white space at both ends.
pub open spec fn trimmed(s: Seq<char>) -> Seq<char> {
    trim_end(trim_start(s))
}

/// No white space stands at either end of `s`.
pub open spec fn is_trimmed(s: Seq<char>) -> bool {
    s.len() > 0 ==> !is_white_space(s.first()) && !is_white_space(s.last())
}

/// One line without the carriage return before its line feed.
pub open spec fn without_return(line: Seq<char>) -> Seq<char> {
    if line.len() > 0 && line.last() == '\r' {
        line.drop_last()
    } else {
        line
    }
}

/// The lines of `s`: each ends at a line feed, or at a carriage return with a
/// line feed behind it, and the ending of the last line may be missing.
pub open spec fn lines(s: Seq<char>) -> Seq<Seq<char>>
    decreases s.len(),
{
    if s.len() == 0 {
        Seq::empty()
    } else {
        proof {
            s.index_of_first_ensures('\n');
        }
        match s.index_of_first('\n') {
            Some(k) => seq![without_return(s.take(k))] + lines(s.skip(k + 1)),
            None => seq![s],
        }
    }
}

/// `parts` with `sep` between each two neighbours.
pub open spec fn joined(parts: Seq<Seq<char>>, sep: Seq<char>) -> Seq<char>
    decreases parts.len(),
{
    if parts.len() == 0 {
        Seq::empty()
    } else if parts.len() == 1 {
        parts[0]
    } else {
        parts[0] + sep + joined(parts.drop_first(), sep)
    }
}

/// `c`, with `A` to `Z` mapped to `a` to `z`.
pub open spec fn ascii_lower(c: char) -> char {
    if 'A' <= c <= 'Z' {
        (c as u32 + 32) as char
    } else {
        c
    }
}

/// `s` with its ASCII capitals made small.
pub open spec fn ascii_lowercase(s: Seq<char>) -> Seq<char> {
    s.map_values(|c: char| ascii_lower(c))
}

/// The first `n` characters of `s`, or all of them where there are fewer.
pub open spec fn prefix(s: Seq<char>, n: int) -> Seq<char> {
    if s.len() <= n {
        s
    } else {
        s.take(n)
    }
}

pub open spec fn is_digit(c: char) -> bool {
    '0' <= c <= '9'
}

pub open spec fn digit_value(c: char) -> int {
    c as int - '0' as int
}

/// The number that a sequence of decimal digits stands for.
pub open spec fn decimal_value(digits: Seq<char>) -> int
    decreases digits.len(),
{
    if digits.len() == 0 {
        0
    } else {
        decimal_value(digits.drop_last()) * 10 + digit_value(digits.last())
    }
}

pub open spec fn all_digits(s: Seq<char>) -> bool {
    forall|i: int| 0 <= i < s.len() ==> is_digit(#[trigger] s[i])
}

/// `s` without one leading plus sign.
pub open spec fn without_plus(s: Seq<char>) -> Seq<char> {
    if s.len() > 0 && s.first() == '+' {
        s.drop_first()
    } else {
        s
    }
}

/// The number that `s` writes: digits, at least one, with or without one plus
/// sign before them, and no larger than the machine can hold.
pub open spec fn parsed_usize(s: Seq<char>) -> Option<usize> {
    let digits = without_plus(s);
    if digits.len() > 0 && all_digits(digits) && decimal_value(digits) <= usize::MAX {
        Some(decimal_value(digits) as usize)
    } else {
        None
    }
}

/// What `str::to_lowercase` makes of a text.
pub uninterp spec fn unicode_lowercase(text: Seq<char>) -> Seq<char>;

/// `str::to_lowercase` of the standard library. Its result is named; of a text
/// that is all ASCII the result is stated: the capitals `A` to `Z` become small
/// and nothing else changes.
#[verifier::external_body]
pub(crate) fn to_lowercase(text: &str) -> (r: String)
    ensures
        r@ == unicode_lowercase(text@),
        vstd::utf8::is_ascii_chars(text@) ==> r@ == ascii_lowercase(text@),
{
    text.to_lowercase()
}

/// The characters of `s`, in order.
pub fn chars_of(s: &str) -> (v: Vec<char>)
    ensures
        v@ == s@,
{
    let mut v: Vec<char> = Vec::new();
    for c in it: s.chars()
        invariant
            it.seq() == s@,
            v@ == s@.take(it.index() as int),
    {
        v.push(c);
    }
    v
}

/// Whether `c` is white space.
pub fn white_space(c: char) -> (r: bool)
    ensures
        r == is_white_space(c),
{
    ('\u{9}' <= c && c <= '\u{d}') || c == ' ' || c == '\u{85}' || c == '\u{a0}' || c == '\u{1680}'
        || ('\u{2000}' <= c && c <= '\u{200a}') || c == '\u{2028}' || c == '\u{2029}' || c
        == '\u{202f}' || c == '\u{205f}' || c == '\u{3000}'
}

proof fn lemma_trim_start(s: Seq<char>, from: int)
    requires
        0 <= from <= s.len(),
        forall|k: int| 0 <= k < from ==> is_white_space(#[trigger] s[k]),
        from < s.len() ==> !is_white_space(s[from]),
    ensures
        trim_start(s) == s.skip(from),
    decreases s.len(),
{
    if from > 0 {
        assert(is_white_space(s[0]));
        let rest = s.drop_first();
        assert forall|k: int| 0 <= k < from - 1 implies is_white_space(#[trigger] rest[k]) by {
            assert(rest[k] == s[k + 1]);
        }
        lemma_trim_start(rest, from - 1);
        assert(rest.skip(from - 1) =~= s.skip(from));
    } else {
        assert(s.skip(0) =~= s);
    }
}

proof fn lemma_trim_end(s: Seq<char>, to: int)
    requires
        0 <= to <= s.len(),
        forall|k: int| to <= k < s.len() ==> is_white_space(#[trigger] s[k]),
        to > 0 ==> !is_white_space(s[to - 1]),
    ensures
        trim_end(s) == s.take(to),
    decreases s.len(),
{
    if to < s.len() {
        let rest = s.drop_last();
        assert forall|k: int| to <= k < rest.len() implies is_white_space(#[trigger] rest[k]) by {
            assert(rest[k] == s[k]);
        }
        assert(is_white_space(s[s.len() - 1]));
        lemma_trim_end(rest, to);
        assert(rest.take(to) =~= s.take(to));
    } else {
        assert(s.take(to) =~= s);
    }
}

/// `s` without the white space at both ends.
pub fn trim(s: &str) -> (r: &str)
    ensures
        r@ == trimmed(s@),
{
    let cs = chars_of(s);
    let n: usize = cs.len();
    let mut from: usize = 0;
    while from < n && white_space(cs[from])
        invariant
            from <= n,
            n == cs@.len(),
            cs@ == s@,
            forall|k: int| 0 <= k < from ==> is_white_space(#[trigger] s@[k]),
        decreases n - from,
    {
        from += 1;
    }
    let mut to: usize = n;
    while to > from && white_space(cs[to - 1])
        invariant
            from <= to <= n,
            n == cs@.len(),
            cs@ == s@,
            forall|k: int| to <= k < n ==> is_white_space(#[trigger] s@[k]),
        decreases to - from,
    {
        to -= 1;
    }
    proof {
        lemma_trim_start(s@, from as int);
        let rest = s@.skip(from as int);
        assert forall|k: int| to - from <= k < rest.len() implies is_white_space(
            #[trigger] rest[k],
        ) by {
            assert(rest[k] == s@[k + from]);
        }
        lemma_trim_end(rest, to - from);
        assert(rest.take(to - from) =~= s@.subrange(from as int, to as int));
    }
    s.substring_char(from, to)
}

/// `first` with `second` behind it.
pub fn followed_by(first: &str, second: &str) -> (r: String)
    ensures
        r@ == first@ + second@,
{
    let mut r = first.to_owned();
    r.append(second);
    r
}

/// Whether two texts hold the same characters.
pub fn same_text(a: &str, b: &str) -> (r: bool)
    ensures
        r == (a@ == b@),
{
    a.to_owned() == b.to_owned()
}

/// Whether `text` is one of `texts`.
pub fn holds(texts: &Vec<String>, text: &str) -> (r: bool)
    ensures
        r == texts.deep_view().contains(text@),
{
    let mut i: usize = 0;
    while i < texts.len()
        invariant
            i <= texts.len(),
            forall|k: int| 0 <= k < i ==> #[trigger] texts.deep_view()[k] != text@,
        decreases texts.len() - i,
    {
        if same_text(texts[i].as_str(), text) {
            assert(texts.deep_view()[i as int] == text@);
            return true;
        }
        i += 1;
    }
    false
}

/// Whether `s` begins with `start`.
pub fn starts_with(s: &str, start: &str) -> (r: bool)
    ensures
        r == start@.is_prefix_of(s@),
{
    let n: usize = start.unicode_len();
    if s.unicode_len() < n {
        return false;
    }
    assert(start@.is_prefix_of(s@) <==> s@.subrange(0, n as int) == start@);
    same_text(s.substring_char(0, n), start)
}

/// What follows `start` in `s`, where `s` begins with it.
pub fn strip_prefix<'a>(s: &'a str, start: &str) -> (r: Option<&'a str>)
    ensures
        match r {
            Some(rest) => start@.is_prefix_of(s@) && rest@ == s@.skip(start@.len() as int),
            None => !start@.is_prefix_of(s@),
        },
{
    if starts_with(s, start) {
        let n: usize = s.unicode_len();
        assert(s@.skip(start@.len() as int) =~= s@.subrange(start@.len() as int, n as int));
        Some(s.substring_char(start.unicode_len(), n))
    } else {
        None
    }
}

/// The first `n` characters of `s`.
pub fn take_chars(s: &str, n: usize) -> (r: String)
    ensures
        r@ == prefix(s@, n as int),
{
    let len: usize = s.unicode_len();
    if len <= n {
        s.to_owned()
    } else {
        assert(s@.subrange(0, n as int) =~= s@.take(n as int));
        s.substring_char(0, n).to_owned()
    }
}

/// Where the first line feed stands.
pub proof fn lemma_first_newline(s: Seq<char>, k: int)
    requires
        0 <= k < s.len(),
        s[k] == '\n',
        forall|j: int| 0 <= j < k ==> s[j] != '\n',
    ensures
        s.index_of_first('\n') == Some(k),
{
    s.index_of_first_ensures('\n');
    assert(s.contains('\n'));
    let f = s.index_of_first('\n').unwrap();
    if f < k {
        assert(s[f] != '\n');
    }
}

proof fn lemma_no_newline(s: Seq<char>)
    requires
        forall|j: int| 0 <= j < s.len() ==> s[j] != '\n',
    ensures
        s.index_of_first('\n') is None,
{
    s.index_of_first_ensures('\n');
}

/// The lines of `s`.
pub fn split_lines(s: &str) -> (r: Vec<String>)
    ensures
        r.deep_view() == lines(s@),
{
    let cs = chars_of(s);
    let n: usize = cs.len();
    let mut r: Vec<String> = Vec::new();
    let mut start: usize = 0;
    let mut i: usize = 0;
    assert(s@.skip(0) =~= s@);
    assert(r.deep_view() + lines(s@) =~= lines(s@));
    while i < n
        invariant
            start <= i <= n,
            n == cs@.len(),
            cs@ == s@,
            forall|j: int| start <= j < i ==> s@[j] != '\n',
            r.deep_view() + lines(s@.skip(start as int)) == lines(s@),
        decreases n - i,
    {
        if cs[i] == '\n' {
            let end: usize = if i > start && cs[i - 1] == '\r' {
                i - 1
            } else {
                i
            };
            let ghost before = r.deep_view();
            r.push(s.substring_char(start, end).to_owned());
            proof {
                let rest = s@.skip(start as int);
                let k = i - start;
                lemma_first_newline(rest, k);
                assert(rest.take(k) =~= s@.subrange(start as int, i as int));
                assert(without_return(rest.take(k)) =~= s@.subrange(start as int, end as int));
                assert(rest.skip(k + 1) =~= s@.skip(i + 1));
                let line = s@.subrange(start as int, end as int);
                assert(r.deep_view() =~= before.push(line));
                assert(before + (seq![line] + lines(s@.skip(i + 1))) =~= before.push(line) + lines(
                    s@.skip(i + 1),
                ));
            }
            start = i + 1;
        }
        i += 1;
    }
    if start < n {
        let ghost before = r.deep_view();
        r.push(s.substring_char(start, n).to_owned());
        proof {
            let rest = s@.skip(start as int);
            lemma_no_newline(rest);
            assert(rest =~= s@.subrange(start as int, n as int));
            assert(r.deep_view() =~= before + seq![rest]);
        }
    } else {
        assert(s@.skip(start as int).len() == 0);
        assert(r.deep_view() + lines(s@.skip(start as int)) =~= r.deep_view());
    }
    r
}

/// One more part behind the others.
pub proof fn lemma_joined_push(parts: Seq<Seq<char>>, last: Seq<char>, sep: Seq<char>)
    requires
        parts.len() > 0,
    ensures
        joined(parts.push(last), sep) == joined(parts, sep) + sep + last,
    decreases parts.len(),
{
    let all = parts.push(last);
    if parts.len() == 1 {
        assert(all.drop_first() =~= seq![last]);
        assert(joined(seq![last], sep) == last);
    } else {
        assert(all.drop_first() =~= parts.drop_first().push(last));
        lemma_joined_push(parts.drop_first(), last, sep);
        assert(joined(all, sep) =~= joined(parts, sep) + sep + last);
    }
}

/// The parts with `sep` between each two neighbours.
pub fn join(parts: &Vec<String>, sep: &str) -> (r: String)
    ensures
        r@ == joined(parts.deep_view(), sep@),
{
    let mut r = String::new();
    let ghost all = parts.deep_view();
    let mut i: usize = 0;
    assert(all.take(0) =~= Seq::empty());
    while i < parts.len()
        invariant
            i <= parts.len(),
            all == parts.deep_view(),
            r@ == joined(all.take(i as int), sep@),
        decreases parts.len() - i,
    {
        if i > 0 {
            r.append(sep);
        }
        r.append(parts[i].as_str());
        proof {
            assert(all.take(i + 1) =~= all.take(i as int).push(all[i as int]));
            if i > 0 {
                lemma_joined_push(all.take(i as int), all[i as int], sep@);
            }
        }
        i += 1;
    }
    assert(all.take(i as int) =~= all);
    r
}

/// `c`, with `A` to `Z` mapped to `a` to `z`.
fn lower(c: char) -> (r: char)
    ensures
        r == ascii_lower(c),
{
    if 'A' <= c && c <= 'Z' {
        (c as u8 + 32) as char
    } else {
        c
    }
}

/// Whether two texts are the same but for the case of their ASCII letters.
pub fn eq_ignore_ascii_case(a: &str, b: &str) -> (r: bool)
    ensures
        r == (ascii_lowercase(a@) == ascii_lowercase(b@)),
{
    let x = chars_of(a);
    let y = chars_of(b);
    if x.len() != y.len() {
        assert(ascii_lowercase(a@).len() != ascii_lowercase(b@).len());
        return false;
    }
    let mut i: usize = 0;
    while i < x.len()
        invariant
            i <= x.len(),
            x@ == a@,
            y@ == b@,
            x@.len() == y@.len(),
            forall|j: int| 0 <= j < i ==> ascii_lower(#[trigger] a@[j]) == ascii_lower(b@[j]),
        decreases x.len() - i,
    {
        if lower(x[i]) != lower(y[i]) {
            assert(ascii_lowercase(a@)[i as int] != ascii_lowercase(b@)[i as int]);
            return false;
        }
        i += 1;
    }
    assert(ascii_lowercase(a@) =~= ascii_lowercase(b@));
    true
}

proof fn lemma_decimal_value_prefix(digits: Seq<char>, n: int)
    requires
        0 <= n <= digits.len(),
        all_digits(digits),
    ensures
        0 <= decimal_value(digits.take(n)) <= decimal_value(digits),
    decreases digits.len(),
{
    if n == digits.len() {
        assert(digits.take(n) =~= digits);
        if n > 0 {
            assert(all_digits(digits.drop_last()));
            lemma_decimal_value_prefix(digits.drop_last(), n - 1);
            assert(is_digit(digits[n - 1]));
        }
    } else {
        let rest = digits.drop_last();
        assert(all_digits(rest));
        lemma_decimal_value_prefix(rest, n);
        assert(rest.take(n) =~= digits.take(n));
        assert(is_digit(digits[digits.len() - 1]));
    }
}

/// The number that `s` writes, if it writes one that fits.
pub fn parse_usize(s: &str) -> (r: Option<usize>)
    ensures
        r == parsed_usize(s@),
{
    let cs = chars_of(s);
    let n: usize = cs.len();
    let from: usize = if n > 0 && cs[0] == '+' {
        1
    } else {
        0
    };
    let ghost digits = without_plus(s@);
    assert(digits =~= s@.skip(from as int));
    if from == n {
        return None;
    }
    let mut value: usize = 0;
    let mut i: usize = from;
    assert(digits.take(0) =~= Seq::empty());
    while i < n
        invariant
            from <= i <= n,
            n == cs@.len(),
            cs@ == s@,
            digits == without_plus(s@),
            digits == s@.skip(from as int),
            forall|j: int| 0 <= j < i - from ==> is_digit(#[trigger] digits[j]),
            value == decimal_value(digits.take(i - from)),
        decreases n - i,
    {
        let c = cs[i];
        assert(c == digits[i - from]);
        if c < '0' || c > '9' {
            return None;
        }
        let d: usize = (c as u32 - '0' as u32) as usize;
        proof {
            let k = i - from;
            assert(digits.take(k + 1).drop_last() =~= digits.take(k));
            assert(decimal_value(digits.take(k + 1)) == value * 10 + d);
            if all_digits(digits) {
                lemma_decimal_value_prefix(digits, k + 1);
            }
        }
        match value.checked_mul(10) {
            None => {
                return None;
            },
            Some(tens) => {
                match tens.checked_add(d) {
                    None => {
                        return None;
                    },
                    Some(v) => {
                        value = v;
                    },
                }
            },
        }
        i += 1;
    }
    assert(digits.take(n - from) =~= digits);
    Some(value)
}

/// Trimming leaves no white space at either end.
pub proof fn lemma_trimmed_is_trimmed(s: Seq<char>)
    ensures
        is_trimmed(trimmed(s)),
{
    lemma_trim_start_first(s);
    lemma_trim_end_last(trim_start(s));
}

proof fn lemma_trim_start_first(s: Seq<char>)
    ensures
        trim_start(s).len() > 0 ==> !is_white_space(trim_start(s).first()),
    decreases s.len(),
{
    if s.len() > 0 && is_white_space(s.first()) {
        lemma_trim_start_first(s.drop_first());
    }
}

proof fn lemma_trim_end_last(s: Seq<char>)
    ensures
        trim_end(s).len() > 0 ==> !is_white_space(trim_end(s).last()) && trim_end(s).first()
            == s.first(),
    decreases s.len(),
{
    if s.len() > 0 && is_white_space(s.last()) {
        lemma_trim_end_last(s.drop_last());
    }
}

/// Trimming changes nothing of a text without white space at its ends.
pub proof fn lemma_trimmed_of_trimmed(s: Seq<char>)
    requires
        is_trimmed(s),
    ensures
        trimmed(s) == s,
{
}

/// Lines do not cross a line feed: text behind one has lines of its own.
pub proof fn lemma_lines_concat(a: Seq<char>, b: Seq<char>)
    requires
        a.len() > 0,
        a.last() == '\n',
    ensures
        lines(a + b) == lines(a) + lines(b),
    decreases a.len(),
{
    a.index_of_first_ensures('\n');
    assert(a.contains('\n')) by {
        assert(a[a.len() - 1] == '\n');
    }
    let k = a.index_of_first('\n').unwrap();
    lemma_first_newline(a + b, k);
    let line = without_return(a.take(k));
    assert((a + b).take(k) =~= a.take(k));
    assert((a + b).skip(k + 1) =~= a.skip(k + 1) + b);
    if k + 1 == a.len() {
        assert(a.skip(k + 1) =~= Seq::empty());
        assert(lines(a.skip(k + 1)) =~= Seq::empty());
        assert(a.skip(k + 1) + b =~= b);
    } else {
        lemma_lines_concat(a.skip(k + 1), b);
    }
    assert(lines(a + b) =~= lines(a) + lines(b));
}

/// A line feed at the end of the last line adds no line.
pub proof fn lemma_lines_terminated(s: Seq<char>)
    requires
        s.len() > 0,
        s.last() != '\n',
        s.last() != '\r',
    ensures
        lines(s + "\n"@) == lines(s),
    decreases s.len(),
{
    reveal_strlit("\n");
    let t = s + "\n"@;
    assert(t =~= s.push('\n'));
    s.index_of_first_ensures('\n');
    match s.index_of_first('\n') {
        Some(k) => {
            lemma_first_newline(t, k);
            assert(t.take(k) =~= s.take(k));
            assert(t.skip(k + 1) =~= s.skip(k + 1) + "\n"@);
            lemma_lines_terminated(s.skip(k + 1));
        },
        None => {
            assert forall|j: int| 0 <= j < s.len() implies t[j] != '\n' by {
                assert(s.contains(s[j]));
            }
            lemma_first_newline(t, s.len() as int);
            assert(t.take(s.len() as int) =~= s);
            assert(t.skip(s.len() as int + 1) =~= Seq::empty());
            assert(lines(t.skip(s.len() as int + 1)) =~= Seq::empty());
            assert(lines(t) =~= seq![s]);
        },
    }
}

/// A text without line feeds is one line.
pub proof fn lemma_one_line(s: Seq<char>)
    requires
        s.len() > 0,
        forall|j: int| 0 <= j < s.len() ==> s[j] != '\n',
    ensures
        lines(s) == seq![s],
{
    lemma_no_newline(s);
}

/// Text put before the first line, without line feeds, becomes part of it.
pub proof fn lemma_lines_indent(start: Seq<char>, s: Seq<char>)
    requires
        start.len() > 0,
        start.last() != '\r',
        forall|j: int| 0 <= j < start.len() ==> start[j] != '\n',
        s.len() > 0,
    ensures
        lines(s).len() > 0,
        lines(start + s) == seq![start + lines(s).first()] + lines(s).drop_first(),
{
    let t = start + s;
    s.index_of_first_ensures('\n');
    match s.index_of_first('\n') {
        Some(k) => {
            let n = start.len() as int;
            lemma_first_newline(t, n + k);
            assert(t.take(n + k) =~= start + s.take(k));
            assert(without_return(t.take(n + k)) =~= start + without_return(s.take(k)));
            assert(t.skip(n + k + 1) =~= s.skip(k + 1));
            assert(lines(s).first() == without_return(s.take(k)));
            assert(lines(s).drop_first() =~= lines(s.skip(k + 1)));
        },
        None => {
            assert forall|j: int| 0 <= j < t.len() implies t[j] != '\n' by {
                if j >= start.len() {
                    assert(s.contains(s[j - start.len()]));
                }
            }
            lemma_no_newline(t);
            assert(lines(s).drop_first() =~= Seq::empty());
        },
    }
    assert(lines(t) =~= seq![start + lines(s).first()] + lines(s).drop_first());
}

/// Some line feed of `s` has a carriage return before it.
pub open spec fn has_return_ending(s: Seq<char>) -> bool {
    exists|k: int| 0 <= k < s.len() - 1 && #[trigger] s[k] == '\r' && s[k + 1] == '\n'
}

/// Joining the lines of a text again gives the text, if it does not end in a
/// line feed; where a carriage return stood before a line feed, less.
pub proof fn lemma_join_lines(s: Seq<char>)
    requires
        s.len() > 0 ==> s.last() != '\n',
    ensures
        !has_return_ending(s) ==> joined(lines(s), "\n"@) == s,
        has_return_ending(s) ==> joined(lines(s), "\n"@).len() < s.len(),
        s.len() > 0 ==> lines(s).len() > 0,
    decreases s.len(),
{
    reveal_strlit("\n");
    if s.len() > 0 {
        s.index_of_first_ensures('\n');
        match s.index_of_first('\n') {
            Some(k) => {
                let first = s.take(k);
                let rest = s.skip(k + 1);
                assert(rest.len() > 0);
                assert(rest.last() == s.last());
                lemma_join_lines(rest);
                assert(lines(s).drop_first() =~= lines(rest));
                assert(lines(s).first() == without_return(first));
                assert(joined(lines(s), "\n"@) == without_return(first) + "\n"@ + joined(
                    lines(rest),
                    "\n"@,
                ));
                assert(s =~= first + "\n"@ + rest);
                if has_return_ending(rest) {
                    let j = choose|j: int|
                        0 <= j < rest.len() - 1 && #[trigger] rest[j] == '\r' && rest[j + 1]
                            == '\n';
                    assert(s[k + 1 + j] == '\r' && s[k + 1 + j + 1] == '\n');
                }
                if k > 0 && s[k - 1] == '\r' {
                    assert(has_return_ending(s));
                } else {
                    assert(without_return(first) == first);
                    if has_return_ending(s) {
                        let j = choose|j: int|
                            0 <= j < s.len() - 1 && #[trigger] s[j] == '\r' && s[j + 1] == '\n';
                        assert(j >= k);
                        assert(j != k);
                        assert(rest[j - k - 1] == '\r' && rest[j - k] == '\n');
                        assert(has_return_ending(rest));
                    }
                }
            },
            None => {
                if has_return_ending(s) {
                    let j = choose|j: int|
                        0 <= j < s.len() - 1 && #[trigger] s[j] == '\r' && s[j + 1] == '\n';
                    assert(s.contains(s[j + 1]));
                }
            },
        }
    }
}

proof fn lemma_trim_start_len(s: Seq<char>)
    ensures
        trim_start(s).len() <= s.len(),
    decreases s.len(),
{
    if s.len() > 0 && is_white_space(s.first()) {
        lemma_trim_start_len(s.drop_first());
    }
}

proof fn lemma_trim_end_len(s: Seq<char>)
    ensures
        trim_end(s).len() <= s.len(),
    decreases s.len(),
{
    if s.len() > 0 && is_white_space(s.last()) {
        lemma_trim_end_len(s.drop_last());
    }
}

/// Trimming makes no text longer.
pub proof fn lemma_trimmed_len(s: Seq<char>)
    ensures
        trimmed(s).len() <= s.len(),
{
    lemma_trim_start_len(s);
    lemma_trim_end_len(trim_start(s));
}

proof fn lemma_trim_start_cut(s: Seq<char>) -> (from: int)
    ensures
        0 <= from <= s.len(),
        trim_start(s) == s.skip(from),
        forall|k: int| 0 <= k < from ==> is_white_space(#[trigger] s[k]),
    decreases s.len(),
{
    if s.len() > 0 && is_white_space(s.first()) {
        let rest = s.drop_first();
        let n = lemma_trim_start_cut(rest);
        assert(rest.skip(n) =~= s.skip(n + 1));
        assert forall|k: int| 0 <= k < n + 1 implies is_white_space(#[trigger] s[k]) by {
            if k > 0 {
                assert(rest[k - 1] == s[k]);
            }
        }
        n + 1
    } else {
        assert(s.skip(0) =~= s);
        0
    }
}

proof fn lemma_trim_end_cut(s: Seq<char>) -> (to: int)
    ensures
        0 <= to <= s.len(),
        trim_end(s) == s.take(to),
        forall|k: int| to <= k < s.len() ==> is_white_space(#[trigger] s[k]),
    decreases s.len(),
{
    if s.len() > 0 && is_white_space(s.last()) {
        let rest = s.drop_last();
        let n = lemma_trim_end_cut(rest);
        assert(rest.take(n) =~= s.take(n));
        assert forall|k: int| n <= k < s.len() implies is_white_space(#[trigger] s[k]) by {
            if k < rest.len() {
                assert(rest[k] == s[k]);
            }
        }
        n
    } else {
        assert(s.take(s.len() as int) =~= s);
        s.len() as int
    }
}

/// Trimming cuts off white space at the two ends, all of it and nothing else.
pub proof fn law_trim(s: &str, r: &str)
    requires
        call_ensures(trim, (s,), r),
    ensures
        exists|from: int, to: int|
            {
                &&& 0 <= from <= to <= s@.len()
                &&& r@ == #[trigger] s@.subrange(from, to)
                &&& forall|k: int| 0 <= k < from ==> is_white_space(#[trigger] s@[k])
                &&& forall|k: int| to <= k < s@.len() ==> is_white_space(#[trigger] s@[k])
                &&& from < to ==> !is_white_space(s@[from]) && !is_white_space(s@[to - 1])
            },
{
    let from = lemma_trim_start_cut(s@);
    let rest = s@.skip(from);
    let n = lemma_trim_end_cut(rest);
    let to = from + n;
    lemma_trimmed_is_trimmed(s@);
    assert(r@ =~= s@.subrange(from, to));
    assert forall|k: int| to <= k < s@.len() implies is_white_space(#[trigger] s@[k]) by {
        assert(rest[k - from] == s@[k]);
    }
    if from < to {
        assert(r@.first() == s@[from]);
        assert(r@.last() == s@[to - 1]);
    }
}

/// The first characters are the beginning of the text, as many as were asked for
/// or all that there are.
pub proof fn law_take_chars(s: &str, n: usize, r: String)
    requires
        call_ensures(take_chars, (s, n), r),
    ensures
        r@.is_prefix_of(s@),
        n <= s@.len() ==> r@.len() == n,
        n > s@.len() ==> r@ == s@,
{
    assert(s@.subrange(0, r@.len() as int) =~= r@);
}

/// A line feed ends the first line, and what stands behind it has lines of its
/// own. A carriage return before the line feed belongs to neither.
pub proof fn law_split_lines_at_line_feed(
    first: Seq<char>,
    whole: &str,
    rest: &str,
    r: Vec<String>,
    others: Vec<String>,
)
    requires
        call_ensures(split_lines, (whole,), r),
        call_ensures(split_lines, (rest,), others),
        whole@ == first + "\n"@ + rest@,
        !first.contains('\n'),
    ensures
        first.len() > 0 && first.last() == '\r' ==> r.deep_view() == seq![first.drop_last()]
            + others.deep_view(),
        !(first.len() > 0 && first.last() == '\r') ==> r.deep_view() == seq![first]
            + others.deep_view(),
{
    reveal_strlit("\n");
    let n = first.len() as int;
    assert forall|j: int| 0 <= j < n implies whole@[j] != '\n' by {
        assert(first.contains(first[j]));
    }
    lemma_first_newline(whole@, n);
    assert(whole@.take(n) =~= first);
    assert(whole@.skip(n + 1) =~= rest@);
}

/// A text without line feeds is one line, as it is; an empty text has none.
pub proof fn law_split_lines_without_line_feed(s: &str, r: Vec<String>)
    requires
        call_ensures(split_lines, (s,), r),
        !s@.contains('\n'),
    ensures
        s@.len() == 0 ==> r.len() == 0,
        s@.len() > 0 ==> r.deep_view() == seq![s@],
{
    assert(r.deep_view().len() == r.len());
    if s@.len() > 0 {
        assert forall|j: int| 0 <= j < s@.len() implies s@[j] != '\n' by {
            assert(s@.contains(s@[j]));
        }
        lemma_one_line(s@);
    }
}

/// A part more is joined with the separator before it, and the first part with
/// none.
pub proof fn law_join(
    parts: &Vec<String>,
    more: &Vec<String>,
    last: Seq<char>,
    sep: &str,
    r: String,
    longer: String,
)
    requires
        call_ensures(join, (parts, sep), r),
        call_ensures(join, (more, sep), longer),
        more.deep_view() == parts.deep_view().push(last),
    ensures
        parts.len() == 0 ==> r@.len() == 0 && longer@ == last,
        parts.len() > 0 ==> longer@ == r@ + sep@ + last,
{
    assert(parts.deep_view().len() == parts.len());
    if parts.len() > 0 {
        lemma_joined_push(parts.deep_view(), last, sep@);
    } else {
        assert(more.deep_view()[0] == last);
    }
}

/// Making ASCII capitals small moves `A` to `Z` by the distance to `a` and changes
/// nothing else.
pub proof fn law_ascii_lowercase(s: Seq<char>)
    ensures
        ascii_lowercase(s).len() == s.len(),
        forall|k: int|
            0 <= k < s.len() ==> {
                let c = #[trigger] ascii_lowercase(s)[k];
                if 'A' <= s[k] <= 'Z' {
                    c as int == s[k] as int + 'a' as int - 'A' as int
                } else {
                    c == s[k]
                }
            },
{
}

/// Two texts that are compared without regard to case have the same length, and
/// at each place the same character or the small and the capital form of one
/// ASCII letter.
pub proof fn law_eq_ignore_ascii_case(a: &str, b: &str, r: bool)
    requires
        call_ensures(eq_ignore_ascii_case, (a, b), r),
    ensures
        r <==> a@.len() == b@.len() && forall|k: int|
            0 <= k < a@.len() ==> {
                ||| #[trigger] a@[k] == b@[k]
                ||| 'A' <= a@[k] <= 'Z' && b@[k] as int == a@[k] as int + 'a' as int - 'A' as int
                ||| 'A' <= b@[k] <= 'Z' && a@[k] as int == b@[k] as int + 'a' as int - 'A' as int
            },
{
    let x = ascii_lowercase(a@);
    let y = ascii_lowercase(b@);
    if r {
        assert(x.len() == y.len());
        assert forall|k: int| 0 <= k < a@.len() implies {
            ||| #[trigger] a@[k] == b@[k]
            ||| 'A' <= a@[k] <= 'Z' && b@[k] as int == a@[k] as int + 'a' as int - 'A' as int
            ||| 'A' <= b@[k] <= 'Z' && a@[k] as int == b@[k] as int + 'a' as int - 'A' as int
        } by {
            assert(x[k] == y[k]);
            assert(x[k] == ascii_lower(a@[k]));
            assert(y[k] == ascii_lower(b@[k]));
        }
    } else if a@.len() == b@.len() {
        if forall|k: int|
            0 <= k < a@.len() ==> {
                ||| #[trigger] a@[k] == b@[k]
                ||| 'A' <= a@[k] <= 'Z' && b@[k] as int == a@[k] as int + 'a' as int - 'A' as int
                ||| 'A' <= b@[k] <= 'Z' && a@[k] as int == b@[k] as int + 'a' as int - 'A' as int
            } {
            assert forall|k: int| 0 <= k < x.len() implies x[k] == y[k] by {
                assert(a@[k] == a@[k]);
            }
            assert(x =~= y);
        }
    }
}

/// A number is read digit by digit: one digit stands for itself, each further
/// digit adds ten times what was read before it, and one plus sign may come
/// first. Nothing is read of an empty text, of a plus sign alone, of anything with
/// another character in it, and of a number that does not fit.
pub proof fn law_parse_usize(s: &str, c: char, longer: &str, r: Option<usize>, q: Option<usize>)
    requires
        call_ensures(parse_usize, (s,), r),
        call_ensures(parse_usize, (longer,), q),
        longer@ == s@.push(c),
    ensures
        s@.len() == 0 ==> r is None,
        s@ == "+"@ ==> r is None,
        !('0' <= c <= '9') ==> q is None,
        '0' <= c <= '9' && (s@.len() == 0 || s@ == "+"@) ==> q == Some(
            (c as int - '0' as int) as usize,
        ),
        s@.len() > 0 && s@ != "+"@ && r is None ==> q is None,
        '0' <= c <= '9' && r is Some ==> q == (if r.unwrap() * 10 + (c as int - '0' as int)
            <= usize::MAX {
            Some((r.unwrap() * 10 + (c as int - '0' as int)) as usize)
        } else {
            None
        }),
{
    reveal_strlit("+");
    let a = without_plus(s@);
    let b = without_plus(longer@);
    if s@.len() == 0 {
        if c == '+' {
            assert(b.len() == 0);
        } else {
            assert(b =~= seq![c]);
        }
    } else {
        assert(b =~= a.push(c));
        if s@.first() == '+' && a.len() == 0 {
            assert(s@ =~= "+"@);
        }
    }
    if b.len() > 0 {
        assert(b.last() == c);
        if all_digits(b) {
            assert(is_digit(b[b.len() - 1]));
        }
        let front = b.drop_last();
        if s@.len() > 0 {
            assert(front =~= a);
        } else {
            assert(front =~= Seq::empty());
        }
        if all_digits(b) {
            assert forall|i: int| 0 <= i < front.len() implies is_digit(#[trigger] front[i]) by {
                assert(is_digit(b[i]));
            }
            lemma_decimal_value_prefix(b, b.len() - 1);
            assert(b.take(b.len() - 1) =~= front);
        } else if '0' <= c <= '9' {
            if all_digits(front) {
                assert forall|i: int| 0 <= i < b.len() implies is_digit(#[trigger] b[i]) by {
                    if i < front.len() {
                        assert(is_digit(front[i]));
                    }
                }
            }
        }
        assert(decimal_value(b) == decimal_value(front) * 10 + digit_value(c));
        assert(decimal_value(Seq::<char>::empty()) == 0);
    }
}

} // verus!
