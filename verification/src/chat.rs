//! Chat bookkeeping: the identifiers and memory keys derived from a chat
//! turn's timestamp, and the fallback reply when the handler produced none.

use vstd::prelude::*;
use vstd::string::StringExecFns;

verus! {

/// The decimal digit character of `d` (0 through 9).
pub open spec fn digit_char(d: int) -> char {
    if d == 0 {
        '0'
    } else if d == 1 {
        '1'
    } else if d == 2 {
        '2'
    } else if d == 3 {
        '3'
    } else if d == 4 {
        '4'
    } else if d == 5 {
        '5'
    } else if d == 6 {
        '6'
    } else if d == 7 {
        '7'
    } else if d == 8 {
        '8'
    } else {
        '9'
    }
}

/// The decimal digits of `n`, most significant first.
pub open spec fn spec_decimal(n: nat) -> Seq<char>
    decreases n,
{
    if n < 10 {
        seq![digit_char(n as int)]
    } else {
        spec_decimal(n / 10).push(digit_char((n % 10) as int))
    }
}

/// The one-character string of a decimal digit.
fn digit_str(d: u64) -> (r: &'static str)
    requires
        d < 10,
    ensures
        r@ == seq![digit_char(d as int)],
{
    proof {
        reveal_strlit("0");
        reveal_strlit("1");
        reveal_strlit("2");
        reveal_strlit("3");
        reveal_strlit("4");
        reveal_strlit("5");
        reveal_strlit("6");
        reveal_strlit("7");
        reveal_strlit("8");
        reveal_strlit("9");
    }
    match d {
        0 => "0",
        1 => "1",
        2 => "2",
        3 => "3",
        4 => "4",
        5 => "5",
        6 => "6",
        7 => "7",
        8 => "8",
        _ => "9",
    }
}

/// `n` written in decimal.
pub fn u64_decimal(n: u64) -> (r: String)
    ensures
        r@ == spec_decimal(n as nat),
    decreases n,
{
    let d = digit_str(n % 10);
    if n < 10 {
        d.to_owned()
    } else {
        let mut s = u64_decimal(n / 10);
        s.append(d);
        s
    }
}

/// The derived names of one chat turn: the cluster and embedding id, and the
/// two durable keys under which the turn's input and output are persisted.
pub struct ChatKeys {
    pub chat_id: String,
    pub input_key: String,
    pub output_key: String,
}

/// Derives a chat turn's identifiers from its timestamp.
pub fn chat_keys(timestamp: u64) -> (r: ChatKeys)
    ensures
        r.chat_id@ == "chat_"@ + spec_decimal(timestamp as nat),
        r.input_key@ == "input_"@ + spec_decimal(timestamp as nat),
        r.output_key@ == "output_"@ + spec_decimal(timestamp as nat),
{
    let ts = u64_decimal(timestamp);
    let mut chat_id = String::from_str("chat_");
    chat_id.append(ts.as_str());
    let mut input_key = String::from_str("input_");
    input_key.append(ts.as_str());
    let mut output_key = String::from_str("output_");
    output_key.append(ts.as_str());
    ChatKeys { chat_id, input_key, output_key }
}

/// The reply persisted and returned: the handler's output, or the fixed
/// fallback when it produced none.
pub fn chat_output(response: Option<String>) -> (r: String)
    ensures
        match response {
            Some(s) => r == s,
            None => r@ == "No response."@,
        },
{
    match response {
        Some(s) => s,
        None => String::from_str("No response."),
    }
}

} // verus!
