//! The parameters of a request.

use vstd::prelude::*;
use vstd::utf8::encode_utf8;

use crate::response::error::ErrorResponse;

verus! {

/// The contents of a list of parameters.
pub open spec fn pairs(params: Seq<(String, String)>) -> Seq<(Seq<char>, Seq<char>)> {
    params.map_values(|p: (String, String)| (p.0@, p.1@))
}

/// The characters of a result that holds a string.
pub open spec fn texts_of(result: Result<String, ErrorResponse>) -> Result<
    Seq<char>,
    ErrorResponse,
> {
    match result {
        Ok(s) => Ok(s@),
        Err(e) => Err(e),
    }
}

/// The value of parameter `key`: that of the last parameter so called.
pub open spec fn lookup(params: Seq<(Seq<char>, Seq<char>)>, key: Seq<char>) -> Option<Seq<char>>
    decreases params.len(),
{
    if params.len() == 0 {
        None
    } else if params.last().0 == key {
        Some(params.last().1)
    } else {
        lookup(params.drop_last(), key)
    }
}

/// The value of parameter `key`, which the request must have.
pub fn get_from_params(params: &Vec<(String, String)>, key: &str) -> (result: Result<
    String,
    ErrorResponse,
>)
    ensures
        texts_of(result) == match lookup(pairs(params@), key@) {
            Some(value) => Ok(value),
            None => Err(ErrorResponse::BadRequest),
        },
{
    let wanted = key.to_owned();
    let ghost all = pairs(params@);
    let mut i: usize = params.len();
    assert(all.take(i as int) =~= all);
    while i > 0
        invariant
            i <= params.len(),
            all == pairs(params@),
            wanted@ == key@,
            lookup(all, key@) == lookup(all.take(i as int), key@),
        decreases i,
    {
        i -= 1;
        proof {
            assert(all.take(i + 1).drop_last() =~= all.take(i as int));
            assert(all.take(i + 1).last() == (params[i as int].0@, params[i as int].1@));
        }
        if params[i].0 == wanted {
            let value = params[i].1.clone();
            assert(lookup(all.take(i + 1), key@) == Some(value@));
            return Ok(value);
        }
    }
    Err(ErrorResponse::BadRequest)
}

/// The byte of the digit `0`.
pub const ZERO: u8 = 48;

/// The byte of the digit `9`.
pub const NINE: u8 = 57;

/// The byte of the sign `+`.
pub const PLUS: u8 = 43;

/// Whether every byte is a decimal digit.
pub open spec fn all_digits(bytes: Seq<u8>) -> bool {
    forall|i: int| 0 <= i < bytes.len() ==> ZERO <= #[trigger] bytes[i] <= NINE
}

/// The number that a string of decimal digits stands for.
pub open spec fn digits_value(bytes: Seq<u8>) -> nat
    decreases bytes.len(),
{
    if bytes.len() == 0 {
        0
    } else {
        digits_value(bytes.drop_last()) * 10 + (bytes.last() - ZERO) as nat
    }
}

/// The digits of a number written in bytes: all of it but a leading `+`.
pub open spec fn unsigned(bytes: Seq<u8>) -> Seq<u8> {
    if bytes.len() > 0 && bytes[0] == PLUS {
        bytes.drop_first()
    } else {
        bytes
    }
}

/// The number that `text` stands for if it is one and no larger than
/// `max`: one or more decimal digits, with or without a `+` before them,
/// and nothing else.
pub open spec fn number(text: Seq<char>, max: nat) -> Option<nat> {
    let digits = unsigned(encode_utf8(text));
    if digits.len() > 0 && all_digits(digits) && digits_value(digits) <= max {
        Some(digits_value(digits))
    } else {
        None
    }
}

/// The number that parameter `key` stands for, if the request has it and
/// it is a number no larger than `max`.
pub open spec fn number_param(params: Seq<(Seq<char>, Seq<char>)>, key: Seq<char>, max: nat) -> Option<
    nat,
> {
    match lookup(params, key) {
        Some(text) => number(text, max),
        None => None,
    }
}

/// A number grows with every digit written after it.
proof fn lemma_digits_grow(bytes: Seq<u8>, k: int)
    requires
        all_digits(bytes),
        0 <= k <= bytes.len(),
    ensures
        digits_value(bytes.take(k)) <= digits_value(bytes),
    decreases bytes.len() - k,
{
    if k < bytes.len() {
        assert(bytes.take(k + 1).drop_last() =~= bytes.take(k));
        assert(bytes.take(k + 1).last() == bytes[k]);
        lemma_digits_grow(bytes, k + 1);
    } else {
        assert(bytes.take(k) =~= bytes);
    }
}

/// Reads `text` as a number no larger than `max`.
pub fn parse_number(text: &str, max: u64) -> (parsed: Option<u64>)
    ensures
        match parsed {
            Some(n) => number(text@, max as nat) == Some(n as nat),
            None => number(text@, max as nat) is None,
        },
{
    let bytes = text.as_bytes();
    let start: usize = if bytes.len() > 0 && bytes[0] == PLUS {
        1
    } else {
        0
    };
    let ghost digits = unsigned(bytes@);
    assert(digits =~= bytes@.skip(start as int));
    if bytes.len() == start {
        return None;
    }
    let mut value: u64 = 0;
    let mut i: usize = start;
    assert(digits.take(0) =~= Seq::empty());
    while i < bytes.len()
        invariant
            start <= i <= bytes.len(),
            digits == bytes@.skip(start as int),
            digits == unsigned(encode_utf8(text@)),
            all_digits(digits.take(i - start)),
            value == digits_value(digits.take(i - start)),
            value <= max,
        decreases bytes.len() - i,
    {
        let b = bytes[i];
        proof {
            assert(digits[i - start] == b);
            assert(digits.take(i - start + 1).drop_last() =~= digits.take(i - start));
            assert(digits.take(i - start + 1).last() == b);
        }
        if b < ZERO || b > NINE {
            assert(!(ZERO <= digits[i - start] <= NINE));
            assert(!all_digits(digits));
            return None;
        }
        let d = (b - ZERO) as u64;
        if d > max || value > (max - d) / 10 {
            proof {
                assert(all_digits(digits.take(i - start + 1))) by {
                    assert forall|k: int| 0 <= k < i - start + 1 implies ZERO
                        <= #[trigger] digits.take(i - start + 1)[k] <= NINE by {
                        if k < i - start {
                            assert(digits.take(i - start)[k] == digits[k]);
                        }
                    }
                }
                if all_digits(digits) {
                    lemma_digits_grow(digits, i - start + 1);
                }
            }
            return None;
        }
        value = value * 10 + d;
        proof {
            assert forall|k: int| 0 <= k < i - start + 1 implies ZERO <= #[trigger] digits.take(
                i - start + 1,
            )[k] <= NINE by {
                if k < i - start {
                    assert(digits.take(i - start)[k] == digits[k]);
                }
            }
        }
        i += 1;
    }
    assert(digits.take(i - start) =~= digits);
    Some(value)
}

/// The number that parameter `key` stands for, which the request must
/// have and which must be a number no larger than `max`.
pub fn get_number(params: &Vec<(String, String)>, key: &str, max: u64) -> (result: Result<
    u64,
    ErrorResponse,
>)
    ensures
        match result {
            Ok(n) => number_param(pairs(params@), key@, max as nat) == Some(n as nat),
            Err(e) => e == ErrorResponse::BadRequest && number_param(
                pairs(params@),
                key@,
                max as nat,
            ) is None,
        },
{
    match get_from_params(params, key) {
        Ok(text) => match parse_number(text.as_str(), max) {
            Some(n) => Ok(n),
            None => Err(ErrorResponse::BadRequest),
        },
        Err(e) => Err(e),
    }
}

} // verus!
