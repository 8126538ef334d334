//! Characters, lines and tokens of a reply.
use vstd::prelude::*;

verus! {

/// The characters with the Unicode property `White_Space`.
pub open spec fn white_space(c: char) -> bool {
    let u = c as u32;
    ||| 0x09 <= u <= 0x0D
    ||| u == 0x20
    ||| u == 0x85
    ||| u == 0xA0
    ||| u == 0x1680
    ||| 0x2000 <= u <= 0x200A
    ||| u == 0x2028
    ||| u == 0x2029
    ||| u == 0x202F
    ||| u == 0x205F
    ||| u == 0x3000
}

/// The word `expir` stands in `s` at index `i`, in upper or lower case letters.
pub open spec fn keyword_at(s: Seq<char>, i: int) -> bool {
    &&& 0 <= i
    &&& i + 5 <= s.len()
    &&& (s[i] == 'e' || s[i] == 'E')
    &&& (s[i + 1] == 'x' || s[i + 1] == 'X')
    &&& (s[i + 2] == 'p' || s[i + 2] == 'P')
    &&& (s[i + 3] == 'i' || s[i + 3] == 'I')
    &&& (s[i + 4] == 'r' || s[i + 4] == 'R')
}

/// `s` holds the word `expir` somewhere, whatever the case of its letters.
pub open spec fn mentions_expiry(s: Seq<char>) -> bool {
    exists|i: int| keyword_at(s, i)
}

/// How many characters stand before the first line feed of `text`: all of them
/// where it has none.
pub open spec fn first_line_len(text: Seq<char>) -> nat
    decreases text.len(),
{
    if text.len() == 0 || text[0] == '\n' {
        0
    } else {
        1 + first_line_len(text.drop_first())
    }
}

/// The first line of `text` that mentions expiry, without its line feed.
/// Lines end at a line feed; the last one ends with the text.
pub open spec fn expiration_line(text: Seq<char>) -> Option<Seq<char>>
    decreases text.len(),
    via expiration_line_decreases
{
    let n = first_line_len(text) as int;
    if mentions_expiry(text.take(n)) {
        Some(text.take(n))
    } else if n >= text.len() {
        None
    } else {
        expiration_line(text.skip(n + 1))
    }
}

#[via_fn]
proof fn expiration_line_decreases(text: Seq<char>) {
    lemma_first_line_len(text);
}

/// The first line stops at the first line feed.
pub proof fn lemma_first_line_len(text: Seq<char>)
    ensures
        first_line_len(text) <= text.len(),
        forall|j: int| 0 <= j < first_line_len(text) ==> text[j] != '\n',
        first_line_len(text) < text.len() ==> text[first_line_len(text) as int] == '\n',
    decreases text.len(),
{
    if text.len() == 0 || text[0] == '\n' {
    } else {
        let rest = text.drop_first();
        lemma_first_line_len(rest);
        assert forall|j: int| 0 <= j < first_line_len(text) implies text[j] != '\n' by {
            if j > 0 {
                assert(text[j] == rest[j - 1]);
            }
        }
        if first_line_len(text) < text.len() {
            assert(text[first_line_len(text) as int] == rest[first_line_len(rest) as int]);
        }
    }
}

/// An index with no line feed before it, and a line feed or the end of the
/// text at it, is where the first line stops.
pub proof fn lemma_first_line_len_is(text: Seq<char>, n: int)
    requires
        0 <= n <= text.len(),
        forall|j: int| 0 <= j < n ==> text[j] != '\n',
        n < text.len() ==> text[n] == '\n',
    ensures
        first_line_len(text) == n,
    decreases text.len(),
{
    if n > 0 {
        let rest = text.drop_first();
        assert forall|j: int| 0 <= j < n - 1 implies rest[j] != '\n' by {
            assert(rest[j] == text[j + 1]);
        }
        lemma_first_line_len_is(rest, n - 1);
    }
}

/// How many characters stand before the first white space of `s`.
pub open spec fn token_len(s: Seq<char>) -> nat
    decreases s.len(),
{
    if s.len() == 0 || white_space(s[0]) {
        0
    } else {
        1 + token_len(s.drop_first())
    }
}

/// The tokens of `line`: its longest runs of characters that are no white
/// space, from left to right.
pub open spec fn tokens(line: Seq<char>) -> Seq<Seq<char>>
    decreases line.len(),
    via tokens_decreases
{
    if line.len() == 0 {
        Seq::empty()
    } else if white_space(line[0]) {
        tokens(line.drop_first())
    } else {
        let n = token_len(line) as int;
        seq![line.take(n)] + tokens(line.skip(n))
    }
}

#[via_fn]
proof fn tokens_decreases(line: Seq<char>) {
    lemma_token_len(line);
}

/// A token stops at the first white space.
pub proof fn lemma_token_len(s: Seq<char>)
    ensures
        token_len(s) <= s.len(),
        forall|j: int| 0 <= j < token_len(s) ==> !white_space(s[j]),
        token_len(s) < s.len() ==> white_space(s[token_len(s) as int]),
    decreases s.len(),
{
    if s.len() == 0 || white_space(s[0]) {
    } else {
        let rest = s.drop_first();
        lemma_token_len(rest);
        assert forall|j: int| 0 <= j < token_len(s) implies !white_space(s[j]) by {
            if j > 0 {
                assert(s[j] == rest[j - 1]);
            }
        }
        if token_len(s) < s.len() {
            assert(s[token_len(s) as int] == rest[token_len(rest) as int]);
        }
    }
}

/// An index with no white space before it, and white space or the end of `s`
/// at it, is where the token that starts `s` stops.
pub proof fn lemma_token_len_is(s: Seq<char>, n: int)
    requires
        0 <= n <= s.len(),
        forall|j: int| 0 <= j < n ==> !white_space(s[j]),
        n < s.len() ==> white_space(s[n]),
    ensures
        token_len(s) == n,
    decreases s.len(),
{
    if n > 0 {
        let rest = s.drop_first();
        assert forall|j: int| 0 <= j < n - 1 implies !white_space(rest[j]) by {
            assert(rest[j] == s[j + 1]);
        }
        lemma_token_len_is(rest, n - 1);
    }
}

/// A run of characters that are no white space, and not empty.
pub open spec fn is_run(token: Seq<char>) -> bool {
    token.len() > 0 && forall|j: int| 0 <= j < token.len() ==> !white_space(token[j])
}

/// Each token is a run of characters that are no white space, and not empty.
pub proof fn lemma_tokens_are_runs(line: Seq<char>)
    ensures
        forall|k: int| 0 <= k < tokens(line).len() ==> is_run(#[trigger] tokens(line)[k]),
    decreases line.len(),
{
    if line.len() == 0 {
        assert(tokens(line).len() == 0);
    } else if white_space(line[0]) {
        lemma_tokens_are_runs(line.drop_first());
        assert(tokens(line) == tokens(line.drop_first()));
    } else {
        lemma_token_len(line);
        let n = token_len(line) as int;
        let first = line.take(n);
        let rest = tokens(line.skip(n));
        lemma_tokens_are_runs(line.skip(n));
        assert(tokens(line) == seq![first] + rest);
        assert(is_run(first));
        assert forall|k: int| 0 <= k < tokens(line).len() implies is_run(
            #[trigger] tokens(line)[k],
        ) by {
            if k > 0 {
                assert(tokens(line)[k] == rest[k - 1]);
            } else {
                assert(tokens(line)[k] == first);
            }
        }
    }
}

/// White space at the end of a line makes no token: a line need not be
/// trimmed before it is split, and a carriage return before the line feed does
/// not count.
pub proof fn lemma_trailing_space_ignored(line: Seq<char>, c: char)
    requires
        white_space(c),
    ensures
        tokens(line.push(c)) == tokens(line),
    decreases line.len(),
{
    let longer = line.push(c);
    assert(longer.len() > 0);
    if line.len() == 0 {
        assert(longer[0] == c);
        assert(longer.drop_first().len() == 0);
        assert(tokens(longer.drop_first()) == Seq::<Seq<char>>::empty());
        assert(tokens(longer) == tokens(longer.drop_first()));
    } else if white_space(line[0]) {
        assert(longer[0] == line[0]);
        assert(longer.drop_first() == line.drop_first().push(c));
        lemma_trailing_space_ignored(line.drop_first(), c);
        assert(tokens(longer) == tokens(longer.drop_first()));
    } else {
        assert(longer[0] == line[0]);
        lemma_token_len(line);
        let n = token_len(line) as int;
        assert(n >= 1);
        assert forall|j: int| 0 <= j < n implies !white_space(longer[j]) by {
            assert(longer[j] == line[j]);
        }
        assert(white_space(longer[n])) by {
            if n < line.len() {
                assert(longer[n] == line[n]);
            }
        }
        lemma_token_len_is(longer, n);
        assert(longer.take(n) == line.take(n));
        assert(longer.skip(n) == line.skip(n).push(c));
        lemma_trailing_space_ignored(line.skip(n), c);
        assert(tokens(longer) == seq![longer.take(n)] + tokens(longer.skip(n)));
    }
}

/// A reply has an expiration line exactly where it mentions expiry at all:
/// the word has no line feed in it, so it never runs across two lines.
pub proof fn lemma_expiration_line_iff_mentioned(text: Seq<char>)
    ensures
        expiration_line(text) is Some <==> mentions_expiry(text),
        expiration_line(text) matches Some(line) ==> mentions_expiry(line),
    decreases text.len(),
{
    lemma_first_line_len(text);
    let n = first_line_len(text) as int;
    let line = text.take(n);
    if mentions_expiry(line) {
        let i = choose|i: int| keyword_at(line, i);
        assert(keyword_at(text, i));
    } else if n >= text.len() {
        assert(line == text);
    } else {
        let rest = text.skip(n + 1);
        lemma_expiration_line_iff_mentioned(rest);
        if mentions_expiry(rest) {
            let i = choose|i: int| keyword_at(rest, i);
            assert(keyword_at(text, n + 1 + i));
        }
        if mentions_expiry(text) {
            let i = choose|i: int| keyword_at(text, i);
            if i + 5 <= n {
                assert(keyword_at(line, i));
            } else {
                assert(keyword_at(rest, i - n - 1));
            }
        }
    }
}

/// A line that mentions expiry is the expiration line of the text that holds
/// it alone.
pub proof fn lemma_line_alone(line: Seq<char>)
    requires
        forall|j: int| 0 <= j < line.len() ==> line[j] != '\n',
        mentions_expiry(line),
    ensures
        expiration_line(line) == Some(line),
{
    lemma_first_line_len_is(line, line.len() as int);
    assert(line.take(line.len() as int) == line);
}

/// Lines that do not mention expiry are passed over: what stands before a line
/// feed, and mentions nothing, can be left out.
pub proof fn lemma_lines_without_mention_skipped(head: Seq<char>, tail: Seq<char>)
    requires
        !mentions_expiry(head),
    ensures
        expiration_line(head + seq!['\n'] + tail) == expiration_line(tail),
    decreases head.len(),
{
    let text = head + seq!['\n'] + tail;
    lemma_first_line_len(head);
    let n = first_line_len(head) as int;
    lemma_first_line_len_is(text, n);
    assert(text.take(n) == head.take(n));
    if mentions_expiry(head.take(n)) {
        let i = choose|i: int| keyword_at(head.take(n), i);
        assert(keyword_at(head, i));
    }
    if n == head.len() {
        assert(text.skip(n + 1) == tail);
    } else {
        let rest = head.skip(n + 1);
        assert(text.skip(n + 1) == rest + seq!['\n'] + tail);
        if mentions_expiry(rest) {
            let i = choose|i: int| keyword_at(rest, i);
            assert(keyword_at(head, n + 1 + i));
        }
        lemma_lines_without_mention_skipped(rest, tail);
    }
}

/// Only the first line that mentions expiry counts: whatever follows a text
/// that has such a line, after a line feed, changes nothing.
pub proof fn lemma_later_text_ignored(head: Seq<char>, tail: Seq<char>)
    requires
        expiration_line(head) is Some,
    ensures
        expiration_line(head + seq!['\n'] + tail) == expiration_line(head),
    decreases head.len(),
{
    let text = head + seq!['\n'] + tail;
    lemma_first_line_len(head);
    let n = first_line_len(head) as int;
    lemma_first_line_len_is(text, n);
    assert(text.take(n) == head.take(n));
    if !mentions_expiry(head.take(n)) {
        let rest = head.skip(n + 1);
        assert(text.skip(n + 1) == rest + seq!['\n'] + tail);
        lemma_later_text_ignored(rest, tail);
    }
}

/// The characters of `s`, in order.
pub fn to_chars(s: &str) -> (chars: Vec<char>)
    ensures
        chars@ == s@,
{
    let mut chars: Vec<char> = Vec::new();
    for c in it: s.chars()
        invariant
            it.seq() == s@,
            chars@ == it.seq().take(it.index()),
    {
        chars.push(c);
        assert(it.seq().take(it.index() + 1) == it.seq().take(it.index()).push(c));
    }
    chars
}

/// Whether `c` is white space.
pub fn is_whitespace(c: char) -> (r: bool)
    ensures
        r == white_space(c),
{
    let u: u32 = c as u32;
    (0x09 <= u && u <= 0x0D) || u == 0x20 || u == 0x85 || u == 0xA0 || u == 0x1680 || (0x2000 <= u
        && u <= 0x200A) || u == 0x2028 || u == 0x2029 || u == 0x202F || u == 0x205F || u == 0x3000
}

/// Whether the characters of `chars` from `start` up to `end` mention expiry.
fn range_mentions_expiry(chars: &Vec<char>, start: usize, end: usize) -> (r: bool)
    requires
        start <= end <= chars.len(),
    ensures
        r == mentions_expiry(chars@.subrange(start as int, end as int)),
{
    let ghost line = chars@.subrange(start as int, end as int);
    if end - start < 5 {
        return false;
    }
    let mut i: usize = start;
    while i <= end - 5
        invariant
            start <= i <= end - 4,
            end <= chars.len(),
            end - start >= 5,
            line == chars@.subrange(start as int, end as int),
            forall|j: int| 0 <= j < i - start ==> !keyword_at(line, j),
        decreases end - i,
    {
        let c0 = chars[i];
        let c1 = chars[i + 1];
        let c2 = chars[i + 2];
        let c3 = chars[i + 3];
        let c4 = chars[i + 4];
        if (c0 == 'e' || c0 == 'E') && (c1 == 'x' || c1 == 'X') && (c2 == 'p' || c2 == 'P') && (c3
            == 'i' || c3 == 'I') && (c4 == 'r' || c4 == 'R') {
            assert(keyword_at(line, i - start));
            return true;
        }
        assert(!keyword_at(line, i - start));
        i += 1;
    }
    false
}

/// Whether `s` holds the word `expir`, whatever the case of its letters.
pub fn has_expiry_keyword(s: &str) -> (r: bool)
    ensures
        r == mentions_expiry(s@),
{
    let chars = to_chars(s);
    assert(chars@.subrange(0, chars@.len() as int) == s@);
    range_mentions_expiry(&chars, 0, chars.len())
}

/// The first line of `text` that mentions expiry, if there is one.
pub fn find_expiration_line(text: &str) -> (r: Option<String>)
    ensures
        match r {
            Some(line) => expiration_line(text@) == Some(line@),
            None => expiration_line(text@) is None,
        },
{
    let chars = to_chars(text);
    let n = chars.len();
    let mut start: usize = 0;
    assert(text@.skip(0) == text@);
    loop
        invariant
            start <= n,
            n == chars.len(),
            chars@ == text@,
            expiration_line(text@) == expiration_line(text@.skip(start as int)),
        decreases n - start,
    {
        let mut end: usize = start;
        while end < n && chars[end] != '\n'
            invariant
                start <= end <= n,
                n == chars.len(),
                forall|j: int| start <= j < end ==> chars@[j] != '\n',
            decreases n - end,
        {
            end += 1;
        }
        proof {
            let rest = text@.skip(start as int);
            lemma_first_line_len_is(rest, end - start);
            assert(rest.take(end - start) == chars@.subrange(start as int, end as int));
            if end < n {
                assert(rest.skip(end - start + 1) == text@.skip(end + 1));
            }
        }
        if range_mentions_expiry(&chars, start, end) {
            let line = text.substring_char(start, end).to_owned();
            return Some(line);
        }
        if end >= n {
            return None;
        }
        start = end + 1;
    }
}

/// The tokens of `line`, from left to right.
pub fn split_tokens(line: &str) -> (r: Vec<String>)
    ensures
        r@.len() == tokens(line@).len(),
        forall|k: int| 0 <= k < r@.len() ==> r@[k]@ == tokens(line@)[k],
{
    let chars = to_chars(line);
    let n = chars.len();
    let mut out: Vec<String> = Vec::new();
    let ghost mut seen: Seq<Seq<char>> = Seq::empty();
    let mut p: usize = 0;
    assert(seen + tokens(line@.skip(0)) == tokens(line@)) by {
        assert(line@.skip(0) == line@);
    }
    while p < n
        invariant
            p <= n,
            n == chars.len(),
            chars@ == line@,
            out@.len() == seen.len(),
            forall|k: int| 0 <= k < out@.len() ==> out@[k]@ == seen[k],
            tokens(line@) == seen + tokens(line@.skip(p as int)),
        decreases n - p,
    {
        if is_whitespace(chars[p]) {
            proof {
                assert(line@.skip(p as int).drop_first() == line@.skip(p + 1));
            }
            p += 1;
        } else {
            let mut q: usize = p + 1;
            while q < n && !is_whitespace(chars[q])
                invariant
                    p < q <= n,
                    n == chars.len(),
                    forall|j: int| p <= j < q ==> !white_space(chars@[j]),
                decreases n - q,
            {
                q += 1;
            }
            let token = line.substring_char(p, q).to_owned();
            proof {
                let rest = line@.skip(p as int);
                lemma_token_len_is(rest, q - p);
                assert(rest.take(q - p) == line@.subrange(p as int, q as int));
                assert(rest.skip(q - p) == line@.skip(q as int));
                assert(seen + (seq![token@] + tokens(line@.skip(q as int))) == seen.push(token@)
                    + tokens(line@.skip(q as int)));
                seen = seen.push(token@);
            }
            out.push(token);
            p = q;
        }
    }
    proof {
        assert(line@.skip(n as int).len() == 0);
        assert(seen + tokens(line@.skip(n as int)) == seen);
    }
    out
}

} // verus!
