//! Planar sample buffers, and the bookkeeping that turns a stream of decoded,
//! interleaved packets into them.

use vstd::prelude::*;

verus! {

/// A fully decoded audio file held in memory, one `Vec` of samples per channel.
pub struct DecodedAudio<S> {
    pub channels: Vec<Vec<S>>,
    pub sample_rate: u32,
    pub codec: String,
    pub bits_per_sample: Option<u32>,
}

impl<S> DecodedAudio<S> {
    /// The number of frames, which is the length of the first channel.
    pub open spec fn spec_frame_count(&self) -> usize {
        if self.channels@.len() == 0 {
            0
        } else {
            self.channels@[0].len()
        }
    }

    #[verifier::when_used_as_spec(spec_frame_count)]
    pub fn frame_count(&self) -> (n: usize)
        ensures
            n == self.spec_frame_count(),
    {
        if self.channels.len() == 0 {
            0
        } else {
            self.channels[0].len()
        }
    }

    pub fn channel_count(&self) -> (n: usize)
        ensures
            n == self.channels@.len(),
    {
        self.channels.len()
    }
}

/// The samples of channel `c` in `interleaved` audio with `n` channels: those
/// at positions `c`, `c + n`, `c + 2n`, and so on, in order.
pub open spec fn lane<S>(interleaved: Seq<S>, n: nat, c: nat) -> Seq<S>
    decreases interleaved.len(),
{
    if n == 0 || c >= interleaved.len() {
        Seq::empty()
    } else if interleaved.len() <= n {
        seq![interleaved[c as int]]
    } else {
        seq![interleaved[c as int]] + lane(interleaved.skip(n as int), n, c)
    }
}

/// Audio made of whole frames splits into channels of one length: each gets
/// one sample per frame.
pub proof fn lemma_lane_len<S>(interleaved: Seq<S>, n: nat, c: nat)
    requires
        n > 0,
        c < n,
        interleaved.len() % n == 0,
    ensures
        lane(interleaved, n, c).len() == interleaved.len() / n,
    decreases interleaved.len(),
{
    let len = interleaved.len();
    if len == 0 {
        assert(0nat / n == 0) by (nonlinear_arith)
            requires
                n > 0,
        ;
    } else if len <= n {
        assert(len == n && len / n == 1) by (nonlinear_arith)
            requires
                len % n == 0,
                0 < len <= n,
        ;
    } else {
        let rest = interleaved.skip(n as int);
        assert((len - n) % (n as int) == 0 && (len - n) / (n as int) == len / n - 1)
            by (nonlinear_arith)
            requires
                len % n == 0,
                len > n,
                n > 0,
        ;
        lemma_lane_len(rest, n, c);
    }
}

/// Lane `c` of `n` interleaved channels holds every `n`-th sample starting at
/// position `c`: its `k`-th sample is the one at `c + k * n`, and it runs
/// until that position leaves the buffer.
pub proof fn lemma_lane_samples<S>(interleaved: Seq<S>, n: nat, c: nat)
    requires
        n > 0,
        c < n,
    ensures
        lane(interleaved, n, c).len() == if c < interleaved.len() {
            (interleaved.len() - 1 - c) / (n as int) + 1
        } else {
            0
        },
        forall|k: int|
            0 <= k < lane(interleaved, n, c).len() ==> #[trigger] lane(interleaved, n, c)[k]
                == interleaved[c + k * n],
    decreases interleaved.len(),
{
    let len = interleaved.len();
    let r = lane(interleaved, n, c);
    if c >= len {
    } else if len <= n {
        let x = len - 1 - c;
        assert(x / (n as int) == 0) by (nonlinear_arith)
            requires
                0 <= x < n,
        ;
        assert(r[0] == interleaved[c as int]);
        assert(c + 0 * n == c) by (nonlinear_arith);
    } else {
        let rest = interleaved.skip(n as int);
        lemma_lane_samples(rest, n, c);
        let tail = lane(rest, n, c);
        assert(r == seq![interleaved[c as int]] + tail);
        let x = len - 1 - c;
        if c < len - n {
            assert(x / (n as int) == (x - n) / (n as int) + 1) by (nonlinear_arith)
                requires
                    x >= n,
                    n > 0,
            ;
        } else {
            assert(x / (n as int) == 0) by (nonlinear_arith)
                requires
                    0 <= x < n,
            ;
        }
        assert forall|k: int| 0 <= k < r.len() implies #[trigger] r[k] == interleaved[c + k * n] by {
            if k > 0 {
                let y = len - n - 1 - c;
                assert(r[k] == tail[k - 1]);
                assert(c < len - n);
                assert(k - 1 <= y / (n as int));
                assert(0 <= (k - 1) * n <= y) by (nonlinear_arith)
                    requires
                        0 <= k - 1 <= y / (n as int),
                        y >= 0,
                        n > 0,
                ;
                assert(tail[k - 1] == rest[c + (k - 1) * n]);
                assert(c + (k - 1) * n + n == c + k * n) by (nonlinear_arith);
            } else {
                assert(c + 0 * n == c) by (nonlinear_arith);
            }
        }
    }
}

/// A decoded packet of whole frames keeps the channels at one length:
/// channels of length `len` each get `frames` more samples.
pub proof fn lemma_whole_frames_keep_channels_even<S>(
    before: Seq<Seq<S>>,
    samples: Seq<S>,
    after: Seq<Seq<S>>,
    len: nat,
)
    requires
        before.len() > 0,
        forall|c: int| 0 <= c < before.len() ==> #[trigger] before[c].len() == len,
        samples.len() % before.len() == 0,
        after.len() == before.len(),
        forall|c: int|
            0 <= c < after.len() ==> #[trigger] after[c] == before[c] + lane(
                samples,
                before.len(),
                c as nat,
            ),
    ensures
        forall|c: int|
            0 <= c < after.len() ==> #[trigger] after[c].len() == len + samples.len()
                / before.len(),
{
    assert forall|c: int| 0 <= c < after.len() implies #[trigger] after[c].len() == len
        + samples.len() / before.len() by {
        lemma_lane_len(samples, before.len(), c as nat);
        assert(after[c] == before[c] + lane(samples, before.len(), c as nat));
    }
}

/// Appends lane `c` of `interleaved` (with `n` channels) to `out`.
fn push_lane<S: Copy>(out: &mut Vec<S>, interleaved: &Vec<S>, n: usize, c: usize)
    requires
        c < n,
    ensures
        final(out)@ == old(out)@ + lane(interleaved@, n as nat, c as nat),
{
    let len: usize = interleaved.len();
    if c >= len {
        return;
    }
    let mut j: usize = c;
    let ghost mut base: int = 0;
    assert(interleaved@.skip(0) =~= interleaved@);
    loop
        invariant
            c < n,
            len == interleaved@.len(),
            0 <= base <= len,
            j == base + c,
            j < len,
            old(out)@ + lane(interleaved@, n as nat, c as nat) == out@ + lane(
                interleaved@.skip(base),
                n as nat,
                c as nat,
            ),
        decreases len - j,
    {
        let ghost rest = interleaved@.skip(base);
        assert(rest[c as int] == interleaved@[j as int]);
        out.push(interleaved[j]);
        if len - j <= n {
            proof {
                if rest.len() > n {
                    assert(lane(rest.skip(n as int), n as nat, c as nat) =~= Seq::<S>::empty());
                }
                assert(lane(rest, n as nat, c as nat) =~= seq![rest[c as int]]);
            }
            return;
        }
        proof {
            assert(rest.skip(n as int) =~= interleaved@.skip(base + n));
            base = base + n;
        }
        j = j + n;
    }
}

/// Splits interleaved samples into `channel_count` channels: channel `c`
/// gets every `channel_count`-th sample starting at position `c`.
pub fn deinterleave<S: Copy>(interleaved: &Vec<S>, channel_count: usize) -> (channels: Vec<Vec<S>>)
    ensures
        channels@.len() == channel_count,
        forall|c: int|
            0 <= c < channel_count ==> #[trigger] channels@[c]@ == lane(
                interleaved@,
                channel_count as nat,
                c as nat,
            ),
{
    let mut channels: Vec<Vec<S>> = Vec::new();
    let mut c: usize = 0;
    while c < channel_count
        invariant
            c <= channel_count,
            channels@.len() == c,
            forall|k: int|
                0 <= k < c ==> #[trigger] channels@[k]@ == lane(
                    interleaved@,
                    channel_count as nat,
                    k as nat,
                ),
        decreases channel_count - c,
    {
        let mut samples: Vec<S> = Vec::new();
        push_lane(&mut samples, interleaved, channel_count, c);
        channels.push(samples);
        c += 1;
    }
    channels
}

/// Appends interleaved samples to planar channels, one lane per channel.
pub fn append_interleaved<S: Copy>(channels: &mut Vec<Vec<S>>, interleaved: &Vec<S>)
    requires
        old(channels)@.len() > 0,
    ensures
        final(channels)@.len() == old(channels)@.len(),
        forall|c: int|
            0 <= c < final(channels)@.len() ==> #[trigger] final(channels)@[c]@ == old(
                channels,
            )@[c]@ + lane(interleaved@, old(channels)@.len() as nat, c as nat),
{
    let n: usize = channels.len();
    let mut pending: Vec<Vec<S>> = Vec::new();
    std::mem::swap(&mut pending, channels);
    let ghost before = pending@;
    let mut c: usize = 0;
    while c < n
        invariant
            n == before.len(),
            c <= n,
            pending@ == before.skip(c as int),
            channels@.len() == c,
            forall|k: int|
                0 <= k < c ==> #[trigger] channels@[k]@ == before[k]@ + lane(
                    interleaved@,
                    n as nat,
                    k as nat,
                ),
        decreases n - c,
    {
        let mut samples = pending.remove(0);
        assert(samples == before[c as int]);
        push_lane(&mut samples, interleaved, n, c);
        channels.push(samples);
        assert(pending@ =~= before.skip(c + 1));
        c += 1;
    }
}

/// `prefix` followed by `detail`.
fn prefixed(prefix: &str, detail: &String) -> (m: String)
    ensures
        m@ == prefix@ + detail@,
{
    let mut m = String::from_str(prefix);
    m.append(detail.as_str());
    m
}

/// Picks the track to decode: the first one whose codec is known. `is_null[t]`
/// says whether track `t` declares the null codec.
pub fn first_decodable_track(is_null: &Vec<bool>) -> (track: Result<usize, String>)
    ensures
        match track {
            Ok(t) => t < is_null@.len() && !is_null@[t as int] && forall|u: int|
                0 <= u < t ==> #[trigger] is_null@[u],
            Err(m) => (forall|u: int| 0 <= u < is_null@.len() ==> #[trigger] is_null@[u]) && m@
                == "file contains no decodable audio track"@,
        },
{
    let mut t: usize = 0;
    while t < is_null.len()
        invariant
            t <= is_null@.len(),
            forall|u: int| 0 <= u < t ==> #[trigger] is_null@[u],
        decreases is_null@.len() - t,
    {
        if !is_null[t] {
            return Ok(t);
        }
        t += 1;
    }
    Err(String::from_str("file contains no decodable audio track"))
}

/// What reading the next packet from the container gave.
pub enum PacketRead {
    /// A packet of the track with this id.
    Packet { track_id: u32 },
    /// The stream ended cleanly.
    EndOfStream,
    /// The container needs a reset, which ends decoding here.
    ResetRequired,
    /// Any other read error, with its description.
    Failed(String),
}

/// What to do after reading a packet.
pub enum PacketStep {
    Decode,
    Skip,
    Finish,
    Fail(String),
}

/// Decides what to do with a packet read while decoding track `track_id`:
/// packets of other tracks are skipped, and the stream ends at its end or on
/// a reset.
pub fn on_packet(track_id: u32, read: PacketRead) -> (step: PacketStep)
    ensures
        match read {
            PacketRead::Packet { track_id: t } => if t == track_id {
                step is Decode
            } else {
                step is Skip
            },
            PacketRead::EndOfStream => step is Finish,
            PacketRead::ResetRequired => step is Finish,
            PacketRead::Failed(e) => step matches PacketStep::Fail(m) && m@
                == "error reading audio stream: "@ + e@,
        },
{
    match read {
        PacketRead::Packet { track_id: t } => if t == track_id {
            PacketStep::Decode
        } else {
            PacketStep::Skip
        },
        PacketRead::EndOfStream => PacketStep::Finish,
        PacketRead::ResetRequired => PacketStep::Finish,
        PacketRead::Failed(e) => PacketStep::Fail(prefixed("error reading audio stream: ", &e)),
    }
}

/// What decoding one packet gave.
pub enum PacketDecode<S> {
    /// Interleaved samples, with the rate and channel count of the packet.
    Decoded { rate: u32, channel_count: usize, samples: Vec<S> },
    /// A damaged packet, which should not sink the whole import.
    Damaged,
    /// The stream ended cleanly.
    EndOfStream,
    /// Any other decode error, with its description.
    Failed(String),
}

/// What to do after decoding a packet.
pub enum DecodeStep {
    Continue,
    Finish,
    Fail(String),
}

/// The audio decoded so far.
pub struct DecodeProgress<S> {
    pub sample_rate: u32,
    pub channels: Vec<Vec<S>>,
}

impl<S: Copy> DecodeProgress<S> {
    /// Starts with the sample rate the track declares, 0 if it declares none.
    pub fn new(sample_rate: Option<u32>) -> (progress: Self)
        ensures
            progress.sample_rate == match sample_rate {
                Some(r) => r,
                None => 0,
            },
            progress.channels@.len() == 0,
    {
        let rate: u32 = match sample_rate {
            Some(r) => r,
            None => 0,
        };
        DecodeProgress { sample_rate: rate, channels: Vec::new() }
    }

    /// How many channels decoded samples are split into: those already
    /// there, or on the first decoded packet the packet's own channel count.
    pub open spec fn lanes_for(&self, channel_count: usize) -> nat {
        if self.channels@.len() == 0 {
            channel_count as nat
        } else {
            self.channels@.len()
        }
    }

    /// Takes in one decoded packet. The first packet to carry samples fixes
    /// the channel count, and the rate when the track declared none.
    pub fn on_decoded(&mut self, result: PacketDecode<S>) -> (step: DecodeStep)
        requires
            match result {
                PacketDecode::Decoded { rate, channel_count, samples } => old(self).lanes_for(
                    channel_count,
                ) > 0 || samples@.len() == 0,
                _ => true,
            },
        ensures
            match result {
                PacketDecode::Decoded { rate, channel_count, samples } => {
                    let n = old(self).lanes_for(channel_count);
                    &&& step is Continue
                    &&& final(self).sample_rate == if old(self).sample_rate == 0 {
                        rate
                    } else {
                        old(self).sample_rate
                    }
                    &&& final(self).channels@.len() == n
                    &&& forall|c: int|
                        0 <= c < n ==> #[trigger] final(self).channels@[c]@ == (if old(
                            self,
                        ).channels@.len() == 0 {
                            Seq::empty()
                        } else {
                            old(self).channels@[c]@
                        }) + lane(samples@, n, c as nat)
                },
                PacketDecode::Damaged => step is Continue && *final(self) == *old(self),
                PacketDecode::EndOfStream => step is Finish && *final(self) == *old(self),
                PacketDecode::Failed(e) => {
                    &&& step matches DecodeStep::Fail(m) && m@ == "error decoding audio: "@ + e@
                    &&& *final(self) == *old(self)
                },
            },
    {
        match result {
            PacketDecode::Decoded { rate, channel_count, samples } => {
                let ghost n = old(self).lanes_for(channel_count);
                let ghost start: Seq<Seq<S>> = Seq::new(
                    n,
                    |c: int|
                        if old(self).channels@.len() == 0 {
                            Seq::<S>::empty()
                        } else {
                            old(self).channels@[c]@
                        },
                );
                if self.channels.len() == 0 {
                    let mut c: usize = 0;
                    while c < channel_count
                        invariant
                            c <= channel_count,
                            self.sample_rate == old(self).sample_rate,
                            self.channels@.len() == c,
                            forall|k: int| 0 <= k < c ==> #[trigger] self.channels@[k]@ == Seq::<S>::empty(),
                        decreases channel_count - c,
                    {
                        self.channels.push(Vec::new());
                        c += 1;
                    }
                }
                assert(self.channels@.len() == n);
                assert(forall|k: int| 0 <= k < n ==> #[trigger] self.channels@[k]@ == start[k]);
                if samples.len() > 0 {
                    append_interleaved(&mut self.channels, &samples);
                } else {
                    proof {
                        assert forall|c: int| 0 <= c < n implies #[trigger] self.channels@[c]@
                            == start[c] + lane(samples@, n, c as nat) by {
                            assert(lane(samples@, n, c as nat) =~= Seq::<S>::empty());
                            assert(start[c] + Seq::<S>::empty() =~= start[c]);
                        }
                    }
                }
                if self.sample_rate == 0 {
                    self.sample_rate = rate;
                }
                DecodeStep::Continue
            },
            PacketDecode::Damaged => DecodeStep::Continue,
            PacketDecode::EndOfStream => DecodeStep::Finish,
            PacketDecode::Failed(e) => DecodeStep::Fail(prefixed("error decoding audio: ", &e)),
        }
    }

    /// The decoded clip, or an error when nothing was decoded.
    pub fn finish(self, codec: String, bits_per_sample: Option<u32>) -> (result: Result<DecodedAudio<S>, String>)
        ensures
            match result {
                Ok(audio) => {
                    &&& self.channels@.len() > 0 && self.channels@[0]@.len() > 0
                    &&& audio.channels == self.channels
                    &&& audio.sample_rate == self.sample_rate
                    &&& audio.codec == codec
                    &&& audio.bits_per_sample == bits_per_sample
                },
                Err(m) => (self.channels@.len() == 0 || self.channels@[0]@.len() == 0) && m@
                    == "file decoded to zero audio frames"@,
            },
    {
        if self.channels.len() == 0 || self.channels[0].len() == 0 {
            return Err(String::from_str("file decoded to zero audio frames"));
        }
        Ok(DecodedAudio {
            channels: self.channels,
            sample_rate: self.sample_rate,
            codec,
            bits_per_sample,
        })
    }
}

} // verus!
