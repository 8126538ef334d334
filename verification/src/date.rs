//! The timestamp that one token stands for.
//!
//! The conversion itself is the work of the crate `str2ts`. It reads the runs of
//! digits of a text in turn as year, month, day, hour, minute and second, and
//! panics where a run is too large for the integer it is read into. This module
//! tells beforehand where that would happen, and hands the other tokens on.
use vstd::prelude::*;
use crate::text::to_chars;

verus! {

/// What `str2ts::str2ts` returns for `date_str`: the number in its `Ok`, or
/// `None` where it returns an error.
pub uninterp spec fn str2ts_of(date_str: Seq<char>) -> Option<u64>;

/// One of the characters `0` to `9`.
pub open spec fn is_digit(c: char) -> bool {
    '0' <= c <= '9'
}

/// The number that the digit `c` stands for.
pub open spec fn digit_value(c: char) -> nat
    recommends
        is_digit(c),
{
    (c as u32 - '0' as u32) as nat
}

/// The largest number that field `field` of a date takes in. Field 0 is the
/// year, read into an `i32`; each later one is read into an `i8`.
pub open spec fn field_limit(field: nat) -> nat {
    if field == 0 {
        0x7fff_ffff
    } else {
        0x7f
    }
}

/// The value of a run of digits that went up to `run` and goes on with `c`.
pub open spec fn extend_run(run: Option<nat>, c: char) -> nat {
    match run {
        Some(v) => v * 10 + digit_value(c),
        None => digit_value(c),
    }
}

/// Every run of digits that is still read from `s` fits its field, when
/// `filled` fields are read already and `run` is the value of the run of
/// digits that stands right before `s`.
///
/// A run that another character follows fills the next field. After the sixth
/// field nothing more is read. A run that ends the text before that is read as
/// the second.
pub open spec fn runs_fit(s: Seq<char>, filled: nat, run: Option<nat>) -> bool
    decreases s.len(),
{
    if filled >= 6 {
        true
    } else if s.len() == 0 {
        match run {
            Some(v) => v <= field_limit(5),
            None => true,
        }
    } else if is_digit(s[0]) {
        runs_fit(s.drop_first(), filled, Some(extend_run(run, s[0])))
    } else {
        match run {
            Some(v) => v <= field_limit(filled) && runs_fit(s.drop_first(), filled + 1, None),
            None => runs_fit(s.drop_first(), filled, None),
        }
    }
}

/// Every run of digits that is read from `token` fits the field it is read
/// into.
pub open spec fn digit_runs_fit(token: Seq<char>) -> bool {
    runs_fit(token, 0, None)
}

/// The timestamp that `token` stands for: what `str2ts` makes of it where its
/// runs of digits fit, and none where they do not.
pub open spec fn timestamp_of_token(token: Seq<char>) -> Option<u64> {
    if digit_runs_fit(token) {
        str2ts_of(token)
    } else {
        None
    }
}

/// Whether every run of digits that is read from `token` fits the field it is
/// read into.
pub fn fits_date_fields(token: &str) -> (r: bool)
    ensures
        r == digit_runs_fit(token@),
{
    let chars = to_chars(token);
    let n = chars.len();
    let mut filled: u8 = 0;
    let mut in_run = false;
    // the value of the run, or 0x8000_0000 where it is larger than that
    let mut value: u64 = 0;
    let ghost mut run: Option<nat> = None;
    let mut i: usize = 0;
    assert(token@.skip(0) == token@);
    while i < n
        invariant
            i <= n,
            n == chars.len(),
            chars@ == token@,
            filled < 6,
            in_run == (run is Some),
            value <= 0x8000_0000,
            run matches Some(v) ==> (if v <= 0x8000_0000 {
                value == v
            } else {
                value == 0x8000_0000
            }),
            digit_runs_fit(token@) == runs_fit(token@.skip(i as int), filled as nat, run),
        decreases n - i,
    {
        let c = chars[i];
        proof {
            assert(token@.skip(i as int).drop_first() == token@.skip(i + 1));
        }
        if c >= '0' && c <= '9' {
            let d: u64 = (c as u32 - '0' as u32) as u64;
            let grown: u64 = if in_run {
                value * 10 + d
            } else {
                d
            };
            value = if grown > 0x8000_0000 {
                0x8000_0000
            } else {
                grown
            };
            proof {
                run = Some(extend_run(run, c));
            }
            in_run = true;
        } else if in_run {
            let limit: u64 = if filled == 0 {
                0x7fff_ffff
            } else {
                0x7f
            };
            if value > limit {
                return false;
            }
            filled += 1;
            in_run = false;
            value = 0;
            proof {
                run = None;
            }
            if filled == 6 {
                assert(runs_fit(token@.skip(i + 1), 6, None));
                return true;
            }
        }
        i += 1;
    }
    !in_run || value <= 0x7f
}

/// Calls `str2ts::str2ts` and keeps the number of a success.
///
/// Not proved, but taken from the source of `str2ts`: the result depends on the
/// characters of `token` and on nothing else, so that it can go by the name
/// `str2ts_of`; and the call panics only where it parses a run of digits that
/// does not fit its field, which `requires` leaves out.
#[verifier::external_body]
fn str2ts_checked(token: &str) -> (r: Option<u64>)
    requires
        digit_runs_fit(token@),
    ensures
        r == str2ts_of(token@),
{
    match str2ts::str2ts(token) {
        Ok(timestamp) => Some(timestamp),
        Err(_) => None,
    }
}

/// The timestamp that `token` stands for, if it stands for one.
pub fn token_timestamp(token: &str) -> (r: Option<u64>)
    ensures
        r == timestamp_of_token(token@),
{
    if fits_date_fields(token) {
        str2ts_checked(token)
    } else {
        None
    }
}

} // verus!
