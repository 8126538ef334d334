//! From the text of a reply to the timestamp of the expiration.
//!
//! The first line that mentions expiry is the only one read. Its tokens are
//! tried from left to right, and the first that stands for a timestamp gives
//! the result.
use vstd::prelude::*;
use crate::date::{timestamp_of_token, token_timestamp};
use crate::text::{
    expiration_line, find_expiration_line, lemma_expiration_line_iff_mentioned,
    lemma_later_text_ignored, lemma_line_alone, lemma_lines_without_mention_skipped,
    mentions_expiry, split_tokens, tokens,
};

verus! {

/// Why a lookup gave no timestamp.
#[derive(Debug, PartialEq, Eq)]
pub enum LookupFailure {
    /// The query itself failed; the text is the transport's own account of it.
    TransportFailure(String),
    /// No line of the reply mentions expiry.
    NoExpirationFieldFound,
    /// A line mentions expiry, and none of its tokens stands for a timestamp.
    UnparseableExpirationDate,
}

impl LookupFailure {
    /// The text of [`LookupFailure::message`]. The two failures of reading a
    /// reply share one text.
    pub open spec fn message_text(self) -> Seq<char> {
        match self {
            LookupFailure::TransportFailure(account) => account@,
            LookupFailure::NoExpirationFieldFound => "Could not parse expiration date"@,
            LookupFailure::UnparseableExpirationDate => "Could not parse expiration date"@,
        }
    }

    /// What to tell a reader of the failure.
    pub fn message(&self) -> (r: String)
        ensures
            r@ == self.message_text(),
    {
        match self {
            LookupFailure::TransportFailure(account) => account.clone(),
            LookupFailure::NoExpirationFieldFound => "Could not parse expiration date".to_owned(),
            LookupFailure::UnparseableExpirationDate => "Could not parse expiration date".to_owned(),
        }
    }
}

/// The timestamp of the first of `toks` that stands for one.
pub open spec fn first_timestamp(toks: Seq<Seq<char>>) -> Option<u64>
    decreases toks.len(),
{
    if toks.len() == 0 {
        None
    } else {
        match timestamp_of_token(toks[0]) {
            Some(timestamp) => Some(timestamp),
            None => first_timestamp(toks.drop_first()),
        }
    }
}

/// What reading the tokens `toks` of an expiration line comes to.
pub open spec fn line_resolution(toks: Seq<Seq<char>>) -> Result<u64, LookupFailure> {
    match first_timestamp(toks) {
        Some(timestamp) => Ok(timestamp),
        None => Err(LookupFailure::UnparseableExpirationDate),
    }
}

/// What reading the reply `text` comes to.
pub open spec fn resolution(text: Seq<char>) -> Result<u64, LookupFailure> {
    match expiration_line(text) {
        Some(line) => line_resolution(tokens(line)),
        None => Err(LookupFailure::NoExpirationFieldFound),
    }
}

/// What the transport's `reply` comes to: its failure handed on as it is, or
/// what its text reads as.
pub open spec fn reply_resolution(reply: Result<String, String>) -> Result<u64, LookupFailure> {
    match reply {
        Ok(text) => resolution(text@),
        Err(account) => Err(LookupFailure::TransportFailure(account)),
    }
}

/// `parse` may answer `outcome` when it is handed the characters `token`.
pub open spec fn may_answer<F: Fn(&str) -> Option<u64>>(
    parse: F,
    token: Seq<char>,
    outcome: Option<u64>,
) -> bool {
    exists|t: &str| t@ == token && #[trigger] call_ensures(parse, (t,), outcome)
}

/// `parse` gives one answer for one token.
pub open spec fn single_valued<F: Fn(&str) -> Option<u64>>(parse: F) -> bool {
    forall|token: Seq<char>, a: Option<u64>, b: Option<u64>|
        #[trigger] may_answer(parse, token, a) && #[trigger] may_answer(parse, token, b) ==> a == b
}

/// `parse` may answer none for each of the first `count` of `toks`.
pub open spec fn none_before<F: Fn(&str) -> Option<u64>>(
    parse: F,
    toks: Seq<Seq<char>>,
    count: int,
) -> bool {
    forall|j: int| 0 <= j < count && j < toks.len() ==> #[trigger] may_answer(parse, toks[j], None)
}

/// `parse` may answer `timestamp` for the token at `k`, and none for each
/// token before it.
pub open spec fn picked_at<F: Fn(&str) -> Option<u64>>(
    parse: F,
    toks: Seq<Seq<char>>,
    k: int,
    timestamp: u64,
) -> bool {
    &&& 0 <= k < toks.len()
    &&& may_answer(parse, toks[k], Some(timestamp))
    &&& none_before(parse, toks, k)
}

/// `parse` may answer `timestamp` for one of `toks`, and none for each token
/// before that one.
pub open spec fn picked<F: Fn(&str) -> Option<u64>>(
    parse: F,
    toks: Seq<Seq<char>>,
    timestamp: u64,
) -> bool {
    exists|k: int| #[trigger] picked_at(parse, toks, k, timestamp)
}

/// Trying `toks` from left to right with `parse` may come to `r`: a timestamp
/// is the answer for a token before which every token was answered with none,
/// and there is no timestamp only where every token was answered with none.
pub open spec fn picks<F: Fn(&str) -> Option<u64>>(
    parse: F,
    toks: Seq<Seq<char>>,
    r: Result<u64, LookupFailure>,
) -> bool {
    match r {
        Ok(timestamp) => picked(parse, toks, timestamp),
        Err(failure) => failure == LookupFailure::UnparseableExpirationDate && none_before(
            parse,
            toks,
            toks.len() as int,
        ),
    }
}

/// Reading the reply `text` with `parse` as the converter of tokens may come
/// to `r`.
pub open spec fn resolves<F: Fn(&str) -> Option<u64>>(
    parse: F,
    text: Seq<char>,
    r: Result<u64, LookupFailure>,
) -> bool {
    match expiration_line(text) {
        Some(line) => picks(parse, tokens(line), r),
        None => r == Err::<u64, LookupFailure>(LookupFailure::NoExpirationFieldFound),
    }
}

/// Reads the reply `text`, with `parse` as the converter of tokens: `parse` is
/// asked about the tokens of the first line that mentions expiry, from left to
/// right, until it answers with a timestamp.
pub fn resolve_with<F: Fn(&str) -> Option<u64>>(text: &str, parse: F) -> (r: Result<
    u64,
    LookupFailure,
>)
    requires
        forall|t: &str| call_requires(parse, (t,)),
    ensures
        resolves(parse, text@, r),
{
    match find_expiration_line(text) {
        None => Err(LookupFailure::NoExpirationFieldFound),
        Some(line) => {
            let toks = split_tokens(line.as_str());
            let ghost all = tokens(line@);
            let mut k: usize = 0;
            while k < toks.len()
                invariant
                    k <= toks.len(),
                    expiration_line(text@) == Some(line@),
                    all == tokens(line@),
                    toks@.len() == all.len(),
                    forall|j: int| 0 <= j < toks@.len() ==> toks@[j]@ == all[j],
                    forall|t: &str| call_requires(parse, (t,)),
                    none_before(parse, all, k as int),
                decreases toks.len() - k,
            {
                let token = toks[k].as_str();
                let outcome = parse(token);
                assert(may_answer(parse, all[k as int], outcome)) by {
                    assert(token@ == all[k as int]);
                    assert(call_ensures(parse, (token,), outcome));
                }
                match outcome {
                    Some(timestamp) => {
                        assert(picked_at(parse, all, k as int, timestamp));
                        return Ok(timestamp);
                    },
                    None => {},
                }
                k += 1;
            }
            Err(LookupFailure::UnparseableExpirationDate)
        },
    }
}

/// Where each token has one answer, the one that `timestamp_of_token` names,
/// trying the tokens from left to right comes to the first timestamp.
proof fn lemma_picks_first<F: Fn(&str) -> Option<u64>>(
    parse: F,
    toks: Seq<Seq<char>>,
    r: Result<u64, LookupFailure>,
)
    requires
        picks(parse, toks, r),
        forall|token: Seq<char>, outcome: Option<u64>| #[trigger]
            may_answer(parse, token, outcome) ==> outcome == timestamp_of_token(token),
    ensures
        r == line_resolution(toks),
    decreases toks.len(),
{
    if toks.len() > 0 {
        let rest = toks.drop_first();
        assert forall|count: int| none_before(parse, toks, count + 1) implies none_before(
            parse,
            rest,
            count,
        ) by {
            assert forall|j: int| 0 <= j < count && j < rest.len() implies #[trigger] may_answer(
                parse,
                rest[j],
                None,
            ) by {
                assert(may_answer(parse, toks[j + 1], None));
            }
        }
        match r {
            Ok(timestamp) => {
                let k = choose|k: int| picked_at(parse, toks, k, timestamp);
                if k > 0 {
                    assert(may_answer(parse, toks[0], None));
                    assert(rest[k - 1] == toks[k]);
                    assert(picked_at(parse, rest, k - 1, timestamp));
                    lemma_picks_first(parse, rest, r);
                }
            },
            Err(_) => {
                assert(may_answer(parse, toks[0], None));
                assert(none_before(parse, rest, rest.len() as int));
                lemma_picks_first(parse, rest, r);
            },
        }
    }
}

/// Reads the reply `text`: the timestamp of the first token that stands for
/// one, on the first line that mentions expiry.
pub fn resolve_expiration(text: &str) -> (r: Result<u64, LookupFailure>)
    ensures
        r == resolution(text@),
{
    let r = resolve_with(text, token_timestamp);
    proof {
        if let Some(line) = expiration_line(text@) {
            lemma_picks_first(token_timestamp, tokens(line), r);
        }
    }
    r
}

/// The token at `k` stands for `timestamp`, and no token before it stands for
/// any.
pub open spec fn first_converting(toks: Seq<Seq<char>>, k: int, timestamp: u64) -> bool {
    &&& 0 <= k < toks.len()
    &&& timestamp_of_token(toks[k]) == Some(timestamp)
    &&& forall|j: int| 0 <= j < k ==> timestamp_of_token(#[trigger] toks[j]) is None
}

/// One of `toks` stands for `timestamp`, and no token before it stands for
/// any.
pub open spec fn converts_first(toks: Seq<Seq<char>>, timestamp: u64) -> bool {
    exists|k: int| #[trigger] first_converting(toks, k, timestamp)
}

/// The first token that stands for a timestamp gives the result, whatever
/// follows it.
pub proof fn lemma_first_converting_token_wins(toks: Seq<Seq<char>>, k: int, timestamp: u64)
    requires
        first_converting(toks, k, timestamp),
    ensures
        line_resolution(toks) == Ok::<u64, LookupFailure>(timestamp),
    decreases toks.len(),
{
    if k > 0 {
        let rest = toks.drop_first();
        assert(timestamp_of_token(toks[0]) is None);
        assert(rest[k - 1] == toks[k]);
        assert forall|j: int| 0 <= j < k - 1 implies timestamp_of_token(#[trigger] rest[j])
            is None by {
            assert(rest[j] == toks[j + 1]);
        }
        lemma_first_converting_token_wins(rest, k - 1, timestamp);
    }
}

/// A line of which no token stands for a timestamp cannot be read.
pub proof fn lemma_no_token_converts(toks: Seq<Seq<char>>)
    requires
        forall|k: int| 0 <= k < toks.len() ==> timestamp_of_token(#[trigger] toks[k]) is None,
    ensures
        line_resolution(toks) == Err::<u64, LookupFailure>(
            LookupFailure::UnparseableExpirationDate,
        ),
    decreases toks.len(),
{
    if toks.len() > 0 {
        let rest = toks.drop_first();
        assert(timestamp_of_token(toks[0]) is None);
        assert forall|k: int| 0 <= k < rest.len() implies timestamp_of_token(#[trigger] rest[k])
            is None by {
            assert(rest[k] == toks[k + 1]);
        }
        lemma_no_token_converts(rest);
    }
}

/// A line gives a timestamp only as that of its first token that stands for
/// one, and fails only where no token stands for one, as unparseable.
pub proof fn lemma_line_resolution(toks: Seq<Seq<char>>)
    ensures
        match line_resolution(toks) {
            Ok(timestamp) => converts_first(toks, timestamp),
            Err(failure) => failure == LookupFailure::UnparseableExpirationDate && forall|k: int|
                0 <= k < toks.len() ==> timestamp_of_token(#[trigger] toks[k]) is None,
        },
    decreases toks.len(),
{
    if toks.len() > 0 {
        let rest = toks.drop_first();
        assert(forall|j: int| 0 <= j < rest.len() ==> rest[j] == toks[j + 1]);
        match timestamp_of_token(toks[0]) {
            Some(timestamp) => {
                assert(first_converting(toks, 0, timestamp));
            },
            None => {
                lemma_line_resolution(rest);
                match line_resolution(rest) {
                    Ok(timestamp) => {
                        let k = choose|k: int| #[trigger] first_converting(rest, k, timestamp);
                        assert forall|j: int| 0 <= j < k + 1 implies timestamp_of_token(
                            #[trigger] toks[j],
                        ) is None by {
                            if j > 0 {
                                assert(toks[j] == rest[j - 1]);
                            }
                        }
                        assert(first_converting(toks, k + 1, timestamp));
                    },
                    Err(_) => {
                        assert forall|k: int| 0 <= k < toks.len() implies timestamp_of_token(
                            #[trigger] toks[k],
                        ) is None by {
                            if k > 0 {
                                assert(toks[k] == rest[k - 1]);
                            }
                        }
                    },
                }
            },
        }
    }
}

/// A reply has no expiration field exactly where it does not mention expiry
/// on any line.
pub proof fn lemma_no_field_iff_not_mentioned(text: Seq<char>)
    ensures
        resolution(text) == Err::<u64, LookupFailure>(LookupFailure::NoExpirationFieldFound)
            <==> !mentions_expiry(text),
{
    lemma_expiration_line_iff_mentioned(text);
    if let Some(line) = expiration_line(text) {
        lemma_line_resolution(tokens(line));
    }
}

/// A reply with an expiration line of which no token stands for a timestamp
/// is unparseable, and only such a reply is.
pub proof fn lemma_unparseable_iff_no_token_converts(text: Seq<char>)
    ensures
        resolution(text) == Err::<u64, LookupFailure>(LookupFailure::UnparseableExpirationDate)
            <==> (expiration_line(text) matches Some(line) && forall|k: int|
            0 <= k < tokens(line).len() ==> timestamp_of_token(#[trigger] tokens(line)[k])
                is None),
{
    if let Some(line) = expiration_line(text) {
        lemma_line_resolution(tokens(line));
        if forall|k: int|
            0 <= k < tokens(line).len() ==> timestamp_of_token(#[trigger] tokens(line)[k])
                is None {
            lemma_no_token_converts(tokens(line));
        }
    }
}

/// The first line that mentions expiry decides alone. The lines before it,
/// which do not mention expiry, and all that follows it, make no difference:
/// not even a later line with a date that can be read.
pub proof fn lemma_first_expiration_line_decides(
    before: Seq<char>,
    line: Seq<char>,
    after: Seq<char>,
)
    requires
        !mentions_expiry(before),
        mentions_expiry(line),
        forall|j: int| 0 <= j < line.len() ==> line[j] != '\n',
    ensures
        resolution(before + seq!['\n'] + line + seq!['\n'] + after) == line_resolution(
            tokens(line),
        ),
        resolution(line + seq!['\n'] + after) == line_resolution(tokens(line)),
        resolution(before + seq!['\n'] + line) == line_resolution(tokens(line)),
{
    lemma_line_alone(line);
    lemma_later_text_ignored(line, after);
    lemma_lines_without_mention_skipped(before, line + seq!['\n'] + after);
    lemma_lines_without_mention_skipped(before, line);
    assert(before + seq!['\n'] + line + seq!['\n'] + after == before + seq!['\n'] + (line
        + seq!['\n'] + after));
}

/// Reading one reply twice gives one result.
pub proof fn lemma_resolution_repeats(
    text: Seq<char>,
    first: Result<u64, LookupFailure>,
    second: Result<u64, LookupFailure>,
)
    requires
        first == resolution(text),
        second == resolution(text),
    ensures
        first == second,
{
}

/// With a converter that gives one answer for one token, reading one reply
/// twice gives one result.
pub proof fn lemma_resolves_once<F: Fn(&str) -> Option<u64>>(
    parse: F,
    text: Seq<char>,
    first: Result<u64, LookupFailure>,
    second: Result<u64, LookupFailure>,
)
    requires
        single_valued(parse),
        resolves(parse, text, first),
        resolves(parse, text, second),
    ensures
        first == second,
{
    if let Some(line) = expiration_line(text) {
        let toks = tokens(line);
        match (first, second) {
            (Ok(a), Ok(b)) => {
                let i = choose|k: int| #[trigger] picked_at(parse, toks, k, a);
                let j = choose|k: int| #[trigger] picked_at(parse, toks, k, b);
                if i < j {
                    assert(may_answer(parse, toks[i], None));
                } else if j < i {
                    assert(may_answer(parse, toks[j], None));
                }
            },
            (Ok(a), Err(_)) => {
                let i = choose|k: int| #[trigger] picked_at(parse, toks, k, a);
                assert(may_answer(parse, toks[i], None));
            },
            (Err(_), Ok(b)) => {
                let j = choose|k: int| #[trigger] picked_at(parse, toks, k, b);
                assert(may_answer(parse, toks[j], None));
            },
            (Err(_), Err(_)) => {},
        }
    }
}

} // verus!
