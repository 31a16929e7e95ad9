//! How the state of a gateway shard is worded.
use crate::text::{decimal, push_decimal, str_chars};
use vstd::prelude::*;
use vstd::string::StringExecFns;

verus! {

/// `text` in title case, as the `cruet` crate writes it.
pub uninterp spec fn title_cased(text: Seq<char>) -> Seq<char>;

/// Puts a text in title case. Trusted: `to_title_case` of the `cruet`
/// crate. The contract only gives the result its name.
#[verifier::external_body]
fn to_title_case(text: &str) -> (r: String)
    ensures
        r@ == title_cased(text@),
{
    cruet::to_title_case(text)
}

/// The wording of a latency in milliseconds, or of a missing one.
pub open spec fn latency_text(millis: Option<u64>) -> Seq<char> {
    match millis {
        Some(ms) => decimal(ms as nat) + "ms"@,
        None => "N/A"@,
    }
}

/// `s` with as many spaces in front as it takes to reach `width`
/// characters.
pub open spec fn padded_left(s: Seq<char>, width: nat) -> Seq<char> {
    if s.len() >= width {
        s
    } else {
        Seq::new((width - s.len()) as nat, |i: int| ' ') + s
    }
}

/// The line of a shard, from the stage it is in, already in title case: its
/// number, its latency in at least five columns, and the stage.
pub open spec fn shard_line(id: u32, millis: Option<u64>, stage: Seq<char>) -> Seq<char> {
    "[SHARD #"@ + decimal(id as nat) + "] "@ + padded_left(latency_text(millis), 5) + " "@ + stage
}

/// Words the line of a shard from its stage in title case.
pub fn format_titled_shard(id: u32, millis: Option<u64>, stage: &str) -> (r: String)
    ensures
        r@ == shard_line(id, millis, stage@),
{
    let mut latency = String::new();
    match millis {
        Some(ms) => {
            push_decimal(&mut latency, ms);
            latency.append("ms");
            assert(latency@ =~= latency_text(millis));
        },
        None => {
            latency.append("N/A");
            assert(latency@ =~= latency_text(millis));
        },
    }
    let width = str_chars(latency.as_str()).len();
    let mut line = String::from_str("[SHARD #");
    push_decimal(&mut line, id as u64);
    line.append("] ");
    let ghost head = line@;
    let mut i: usize = width;
    proof {
        assert(head + Seq::new(0nat, |j: int| ' ') =~= head);
    }
    while i < 5
        invariant
            width <= i,
            width < 5 ==> i <= 5,
            width >= 5 ==> i == width,
            line@ == head + Seq::new((i - width) as nat, |j: int| ' '),
        decreases 5 - i,
    {
        line.append(" ");
        proof {
            reveal_strlit(" ");
            assert(" "@ =~= seq![' ']);
            assert(line@ =~= head + Seq::new((i + 1 - width) as nat, |j: int| ' '));
        }
        i += 1;
    }
    line.append(latency.as_str());
    proof {
        if width >= 5 {
            assert(line@ =~= head + padded_left(latency_text(millis), 5));
        } else {
            assert(line@ =~= head + padded_left(latency_text(millis), 5));
        }
    }
    line.append(" ");
    line.append(stage);
    line
}

/// The line of a shard: its number, its latency and its stage in title
/// case.
pub fn format_shard(id: u32, millis: Option<u64>, stage: &str) -> (r: String)
    ensures
        r@ == shard_line(id, millis, title_cased(stage@)),
{
    let titled = to_title_case(stage);
    format_titled_shard(id, millis, titled.as_str())
}

} // verus!
