//! Turning a received batch back into the text packets that the pipeline
//! reads, one per channel.
use vstd::prelude::*;
use vstd::string::*;
use vstd::slice::slice_to_vec;
use vstd::utf8::encode_utf8;
use crate::text::{decimal_text, decimal_u64, decimal_i64, signed_decimal_text, three_digits, three_digit_text};

verus! {

/// A time in milliseconds written as seconds with three decimals
/// (`format!("{:.3}", ms as f64 / 1000.0)`).
pub open spec fn seconds_text(ms: int) -> Seq<char> {
    let a = if ms < 0 { -ms } else { ms };
    (if ms < 0 { seq!['-'] } else { Seq::empty() }) + decimal_text((a / 1000) as nat) + seq!['.']
        + three_digits((a % 1000) as nat)
}

/// Each sample written as `, ` and its decimal notation.
pub open spec fn samples_text(samples: Seq<i32>) -> Seq<char>
    decreases samples.len(),
{
    if samples.len() == 0 {
        Seq::empty()
    } else {
        samples_text(samples.drop_last()) + ", "@ + signed_decimal_text(samples.last() as int)
    }
}

/// The packet `{'CHANNEL', SECONDS, S1, S2, ...}` for one channel of a batch.
pub open spec fn packet_text(channel: Seq<char>, samples: Seq<i32>, start_time_ms: int) -> Seq<char> {
    "{'"@ + channel + "', "@ + seconds_text(start_time_ms) + samples_text(samples) + "}"@
}

fn seconds_string(ms: i64) -> (r: String)
    ensures
        r@ == seconds_text(ms as int),
{
    let a: u64 = if ms < 0 { ((-(ms + 1)) as u64) + 1 } else { ms as u64 };
    let mut s = String::new();
    if ms < 0 {
        s.append("-");
        proof { reveal_strlit("-"); }
    }
    s.append(decimal_u64(a / 1000).as_str());
    s.append(".");
    proof { reveal_strlit("."); }
    s.append(three_digit_text(a % 1000).as_str());
    s
}

/// Rebuilds the text packet `{'CHANNEL', SECONDS, S1, S2, ...}` for one
/// channel of a received batch: the start time in seconds with three
/// decimals, then each sample; the packet's bytes in UTF-8.
pub fn reconstruct_packet(_station: &str, channel: &str, samples: &[i32], start_time_ms: i64) -> (r: Vec<u8>)
    ensures
        r@ == encode_utf8(packet_text(channel@, samples@, start_time_ms as int)),
{
    let mut s = String::from_str("{'");
    s.append(channel);
    s.append("', ");
    s.append(seconds_string(start_time_ms).as_str());
    let ghost head = s@;
    let mut i: usize = 0;
    while i < samples.len()
        invariant
            i <= samples@.len(),
            s@ == head + samples_text(samples@.take(i as int)),
        decreases samples@.len() - i,
    {
        s.append(", ");
        s.append(decimal_i64(samples[i] as i64).as_str());
        assert(samples@.take(i + 1).drop_last() =~= samples@.take(i as int));
        i = i + 1;
    }
    s.append("}");
    assert(samples@.take(samples@.len() as int) =~= samples@);
    assert(s@ =~= packet_text(channel@, samples@, start_time_ms as int));
    slice_to_vec(s.as_str().as_bytes())
}

} // verus!
