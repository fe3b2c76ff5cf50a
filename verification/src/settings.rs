//! The benchmark settings that a node reads from its environment, parsed
//! with `konst`'s strict number and boolean parsers.

use crate::config_entry::{digits_value, is_ascii_digit, spec_parse_unsigned};
use konst::primitive::{parse_bool, parse_u64, parse_usize};
use vstd::prelude::*;

verus! {

/// A string of decimal digits and nothing else (no sign, no space),
/// denoting a value no larger than `max`.
pub open spec fn spec_parse_digits(s: Seq<char>, max: nat) -> Option<nat> {
    if s.len() > 0 && (forall|i: int| 0 <= i < s.len() ==> is_ascii_digit(#[trigger] s[i]))
        && digits_value(s) <= max {
        Some(digits_value(s))
    } else {
        None
    }
}

/// `true` or `false`, spelled out in lower case and nothing else.
pub open spec fn spec_parse_bool(s: Seq<char>) -> Option<bool> {
    if s == "true"@ {
        Some(true)
    } else if s == "false"@ {
        Some(false)
    } else {
        None
    }
}

/// `konst::primitive::parse_usize`: the crate reads a first digit, then
/// digits while they last, failing on overflow, and succeeds only when
/// nothing is left.
#[verifier::external_body]
fn konst_usize(s: &str) -> (r: Option<usize>)
    ensures
        match spec_parse_digits(s@, usize::MAX as nat) {
            Some(n) => r == Some(n as usize),
            None => r is None,
        },
{
    parse_usize(s).ok()
}

/// `konst::primitive::parse_u64`: as `konst_usize`, for `u64`.
#[verifier::external_body]
fn konst_u64(s: &str) -> (r: Option<u64>)
    ensures
        match spec_parse_digits(s@, u64::MAX as nat) {
            Some(n) => r == Some(n as u64),
            None => r is None,
        },
{
    parse_u64(s).ok()
}

/// `konst::primitive::parse_bool`: the crate accepts a leading `true` or
/// `false` and succeeds only when nothing follows it.
#[verifier::external_body]
fn konst_bool(s: &str) -> (r: Option<bool>)
    ensures
        r == spec_parse_bool(s@),
{
    parse_bool(s).ok()
}

/// The node id, from the `ID` setting.
pub fn id(value: &str) -> (r: Option<usize>)
    ensures
        match spec_parse_digits(value@, usize::MAX as nat) {
            Some(n) => r == Some(n as usize),
            None => r is None,
        },
{
    konst_usize(value)
}

/// The request size in bytes, from the `REQUEST_SIZE` setting.
pub fn request_size(value: &str) -> (r: Option<usize>)
    ensures
        match spec_parse_digits(value@, usize::MAX as nat) {
            Some(n) => r == Some(n as usize),
            None => r is None,
        },
{
    konst_usize(value)
}

/// The reply size in bytes, from the `REPLY_SIZE` setting.
pub fn reply_size(value: &str) -> (r: Option<usize>)
    ensures
        match spec_parse_digits(value@, usize::MAX as nat) {
            Some(n) => r == Some(n as usize),
            None => r is None,
        },
{
    konst_usize(value)
}

/// The state size in bytes, from the `STATE_SIZE` setting.
pub fn state_size(value: &str) -> (r: Option<usize>)
    ensures
        match spec_parse_digits(value@, usize::MAX as nat) {
            Some(n) => r == Some(n as usize),
            None => r is None,
        },
{
    konst_usize(value)
}

/// The measurement interval, from the `MEASUREMENT_INTERVAL` setting.
pub fn measurement_interval(value: &str) -> (r: Option<usize>)
    ensures
        match spec_parse_digits(value@, usize::MAX as nat) {
            Some(n) => r == Some(n as usize),
            None => r is None,
        },
{
    konst_usize(value)
}

/// The number of operations, from the `OPS_NUMBER` setting.
pub fn ops_number(value: &str) -> (r: Option<u64>)
    ensures
        match spec_parse_digits(value@, u64::MAX as nat) {
            Some(n) => r == Some(n as u64),
            None => r is None,
        },
{
    konst_u64(value)
}

/// The requests each client keeps in flight, from `CONCURRENT_RQS`.
pub fn concurrent_requests(value: &str) -> (r: Option<u64>)
    ensures
        match spec_parse_digits(value@, u64::MAX as nat) {
            Some(n) => r == Some(n as u64),
            None => r is None,
        },
{
    konst_u64(value)
}

/// The number of clients, from `NUM_CLIENTS`.
pub fn client_count(value: &str) -> (r: Option<u64>)
    ensures
        match spec_parse_digits(value@, u64::MAX as nat) {
            Some(n) => r == Some(n as u64),
            None => r is None,
        },
{
    konst_u64(value)
}

/// The pause between requests in milliseconds, from
/// `REQUEST_SLEEP_MILLIS`, which defaults to `0` when unset.
pub fn request_sleep_millis(value: Option<&str>) -> (r: Option<u64>)
    ensures
        match spec_parse_digits(
            match value {
                Some(v) => v@,
                None => "0"@,
            },
            u64::MAX as nat,
        ) {
            Some(n) => r == Some(n as u64),
            None => r is None,
        },
{
    let text = match value {
        Some(v) => v,
        None => "0",
    };
    konst_u64(text)
}

/// The verbosity flag, read as a boolean from `REQUEST_SLEEP_MILLIS`,
/// which defaults to `0` when unset.
pub fn verbose(value: Option<&str>) -> (r: Option<bool>)
    ensures
        r == spec_parse_bool(
            match value {
                Some(v) => v@,
                None => "0"@,
            },
        ),
{
    let text = match value {
        Some(v) => v,
        None => "0",
    };
    konst_bool(text)
}

/// A setting these parsers accept is accepted by std's `str::parse` with
/// the same value (std also takes a leading `+`, which these refuse).
pub proof fn lemma_accepted_settings_parse_alike(s: Seq<char>, max: nat)
    requires
        spec_parse_digits(s, max) is Some,
    ensures
        spec_parse_unsigned(s, max) == spec_parse_digits(s, max),
{
    assert(is_ascii_digit(s[0]));
    assert(s[0] != '+');
}

/// The payload of a reply of `reply_size` bytes: zeros filling what the
/// reply's `usize`-sized header leaves, nothing when the header fills it.
pub open spec fn spec_reply_payload(reply_size: nat) -> Seq<u8> {
    let header = vstd::layout::size_of::<usize>();
    if reply_size > header {
        Seq::new((reply_size - header) as nat, |i: int| 0u8)
    } else {
        Seq::empty()
    }
}

/// The payload an executed request is answered with.
pub fn reply_payload(reply_size: usize) -> (r: Vec<u8>)
    ensures
        r@ == spec_reply_payload(reply_size as nat),
{
    let header = core::mem::size_of::<usize>();
    let mut bytes: Vec<u8> = Vec::new();
    if reply_size > header {
        let n = reply_size - header;
        let mut i: usize = 0;
        while i < n
            invariant
                i <= n,
                bytes@ == Seq::new(i as nat, |j: int| 0u8),
            decreases n - i,
        {
            bytes.push(0u8);
            i = i + 1;
            assert(bytes@ =~= Seq::new(i as nat, |j: int| 0u8));
        }
    } else {
        assert(bytes@ =~= Seq::<u8>::empty());
    }
    bytes
}

} // verus!
