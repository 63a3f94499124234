//! Turning a finished recording into a clip.

use vstd::prelude::*;

use super::decode::{deinterleave, lane, DecodedAudio};

verus! {

/// Builds the clip for a recording: `buffer` holds the interleaved samples
/// captured from an input device with `channel_count` channels.
pub fn recorded_clip<S: Copy>(buffer: &Vec<S>, channel_count: usize, sample_rate: u32) -> (result:
    Result<DecodedAudio<S>, String>)
    ensures
        match result {
            Err(m) => buffer@.len() == 0 && m@ == "no audio recorded"@,
            Ok(audio) => {
                &&& buffer@.len() > 0
                &&& audio.channels@.len() == channel_count
                &&& forall|c: int|
                    0 <= c < channel_count ==> #[trigger] audio.channels@[c]@ == lane(
                        buffer@,
                        channel_count as nat,
                        c as nat,
                    )
                &&& audio.sample_rate == sample_rate
                &&& audio.codec@ == "recorded"@
                &&& audio.bits_per_sample == Some(32u32)
            },
        },
{
    if buffer.len() == 0 {
        return Err(String::from_str("no audio recorded"));
    }
    Ok(DecodedAudio {
        channels: deinterleave(buffer, channel_count),
        sample_rate,
        codec: String::from_str("recorded"),
        bits_per_sample: Some(32),
    })
}

} // verus!
