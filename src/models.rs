//! Records exchanged with a mining pool, and the settings of a solve.

use vstd::prelude::*;
use crate::codec::radix_value;

verus! {

/// A job from the pool: a header to solve and the target it must meet.
#[derive(Clone, Debug)]
pub struct Job {
    pub job_id: String,
    pub data: String,
    pub target: String,
}

/// A solution sent to the pool.
#[derive(Clone, Debug)]
pub struct SubmitMessage {
    pub message_type: String,
    pub miner_id: String,
    pub nonce: String,
    pub job_id: String,
    pub path: String,
}

/// A message from the pool; a job carries its id, header and target.
#[derive(Clone, Debug)]
pub struct ServerMessage {
    pub message_type: String,
    pub job_id: Option<String>,
    pub data: Option<String>,
    pub target: Option<String>,
}

pub open spec fn is_dec_digit(c: char) -> bool {
    '0' <= c && c <= '9'
}

/// The digits of an unsigned integer text: an optional leading `+` dropped.
pub open spec fn unsigned_digits(s: Seq<char>) -> Seq<char> {
    if s.len() > 0 && s[0] == '+' {
        s.drop_first()
    } else {
        s
    }
}

pub open spec fn dec_value(s: Seq<char>) -> nat {
    radix_value(s.map_values(|c: char| (c as nat - '0' as nat) as nat), 10)
}

/// `s` is the text of a `u64`: an optional `+`, then at least one decimal
/// digit, with a value that fits.
pub open spec fn is_u64_text(s: Seq<char>) -> bool {
    let d = unsigned_digits(s);
    &&& d.len() > 0
    &&& forall|i: int| 0 <= i < d.len() ==> is_dec_digit(#[trigger] d[i])
    &&& dec_value(d) <= u64::MAX
}

/// Relies on str::parse::<u64>: an optional `+` followed by decimal digits,
/// failing on anything else and on overflow.
#[verifier::external_body]
fn parse_u64(s: &str) -> (r: Option<u64>)
    ensures
        r is Some <==> is_u64_text(s@),
        r is Some ==> r->Some_0 as nat == dec_value(unsigned_digits(s@)),
{
    s.parse::<u64>().ok()
}

/// The bailout that an optional setting gives: its value when it is the
/// text of a `u64`, `default` when it is absent or not a number.
pub fn bailout_or_default(setting: &Option<String>, default: u64) -> (r: u64)
    ensures
        r == match setting {
            Some(s) => if is_u64_text(s@) {
                dec_value(unsigned_digits(s@)) as u64
            } else {
                default
            },
            None => default,
        },
{
    match setting {
        Some(s) => match parse_u64(s.as_str()) {
            Some(v) => v,
            None => default,
        },
        None => default,
    }
}

} // verus!
