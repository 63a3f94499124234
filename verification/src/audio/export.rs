//! Laying planar audio out for writing to disk.

use vstd::prelude::*;

use super::decode::lane;

verus! {

/// Sample depth of an exported WAV file.
#[derive(Debug, Clone, Copy)]
pub enum BitDepth {
    Int16,
    Int24,
    Float32,
}

/// How samples are stored in a WAV file.
#[derive(Debug, Clone, Copy)]
pub enum SampleFormat {
    Int,
    Float,
}

impl BitDepth {
    /// Bits per sample and sample format written for this depth.
    pub fn wav_spec(self) -> (spec: (u16, SampleFormat))
        ensures
            match self {
                BitDepth::Int16 => spec.0 == 16 && spec.1 is Int,
                BitDepth::Int24 => spec.0 == 24 && spec.1 is Int,
                BitDepth::Float32 => spec.0 == 32 && spec.1 is Float,
            },
    {
        match self {
            BitDepth::Int16 => (16, SampleFormat::Int),
            BitDepth::Int24 => (24, SampleFormat::Int),
            BitDepth::Float32 => (32, SampleFormat::Float),
        }
    }
}

/// Frame `k` of planar channels: sample `k` of every channel, in channel order.
pub open spec fn column<S>(channels: Seq<Seq<S>>, k: int) -> Seq<S> {
    Seq::new(channels.len(), |c: int| channels[c][k])
}

/// `count` frames of planar channels starting at frame `start`, interleaved.
pub open spec fn frames<S>(channels: Seq<Seq<S>>, start: int, count: nat) -> Seq<S>
    decreases count,
{
    if count == 0 {
        Seq::empty()
    } else {
        column(channels, start) + frames(channels, start + 1, (count - 1) as nat)
    }
}

/// The length of the shortest channel (0 when there are none).
pub open spec fn shortest<S>(channels: Seq<Seq<S>>) -> nat
    decreases channels.len(),
{
    if channels.len() == 0 {
        0
    } else if channels.len() == 1 {
        channels[0].len()
    } else {
        let rest = shortest(channels.drop_last());
        if rest <= channels.last().len() {
            rest
        } else {
            channels.last().len()
        }
    }
}

proof fn lemma_frames_push<S>(channels: Seq<Seq<S>>, start: int, count: nat)
    ensures
        frames(channels, start, count + 1) == frames(channels, start, count) + column(
            channels,
            start + count,
        ),
    decreases count,
{
    if count == 0 {
        assert(frames(channels, start + 1, 0) =~= Seq::<S>::empty());
        assert(frames(channels, start, 1) =~= column(channels, start));
    } else {
        lemma_frames_push(channels, start + 1, (count - 1) as nat);
        assert(frames(channels, start, count + 1) =~= frames(channels, start, count) + column(
            channels,
            start + count,
        ));
    }
}

proof fn lemma_frames_len<S>(channels: Seq<Seq<S>>, start: int, count: nat)
    ensures
        frames(channels, start, count).len() == count * channels.len(),
    decreases count,
{
    if count > 0 {
        lemma_frames_len(channels, start + 1, (count - 1) as nat);
        let n = channels.len();
        assert(frames(channels, start, count) == column(channels, start) + frames(
            channels,
            start + 1,
            (count - 1) as nat,
        ));
        assert(column(channels, start).len() == n);
        let m = (count - 1) as nat;
        assert(frames(channels, start + 1, m).len() == m * n);
        assert(count * n == n + m * n) by (nonlinear_arith)
            requires
                m == count - 1,
        ;
    } else {
        assert(count * channels.len() == 0) by (nonlinear_arith)
            requires
                count == 0,
        ;
    }
}

/// Interleaved frames go channel by channel within a frame, frame after
/// frame: position `j` holds channel `j % n` of frame `start + j / n`, for `n`
/// channels.
pub proof fn lemma_frames_samples<S>(channels: Seq<Seq<S>>, start: int, count: nat)
    requires
        channels.len() > 0,
    ensures
        frames(channels, start, count).len() == count * channels.len(),
        forall|j: int|
            0 <= j < frames(channels, start, count).len() ==> #[trigger] frames(
                channels,
                start,
                count,
            )[j] == channels[j % (channels.len() as int)][start + j / (channels.len() as int)],
    decreases count,
{
    lemma_frames_len(channels, start, count);
    if count > 0 {
        let n = channels.len() as int;
        let m = (count - 1) as nat;
        let head = column(channels, start);
        let rest = frames(channels, start + 1, m);
        lemma_frames_samples(channels, start + 1, m);
        assert(frames(channels, start, count) == head + rest);
        assert forall|j: int| 0 <= j < frames(channels, start, count).len() implies #[trigger] frames(
            channels,
            start,
            count,
        )[j] == channels[j % n][start + j / n] by {
            if j < n {
                assert(j % n == j && j / n == 0) by (nonlinear_arith)
                    requires
                        0 <= j < n,
                ;
            } else {
                assert(frames(channels, start, count)[j] == rest[j - n]);
                assert((j - n) % n == j % n && (j - n) / n + 1 == j / n) by (nonlinear_arith)
                    requires
                        j >= n,
                        n > 0,
                ;
            }
        }
    }
}

proof fn lemma_shortest_bounds<S>(channels: Seq<Seq<S>>)
    ensures
        forall|c: int| 0 <= c < channels.len() ==> shortest(channels) <= #[trigger] channels[c].len(),
        channels.len() > 0 ==> exists|c: int|
            0 <= c < channels.len() && shortest(channels) == #[trigger] channels[c].len(),
    decreases channels.len(),
{
    if channels.len() == 1 {
        assert(shortest(channels) == channels[0].len());
    }
    if channels.len() > 1 {
        let init = channels.drop_last();
        lemma_shortest_bounds(init);
        assert forall|c: int| 0 <= c < channels.len() implies shortest(channels)
            <= #[trigger] channels[c].len() by {
            if c < init.len() {
                assert(init[c] == channels[c]);
            }
        }
        if shortest(init) <= channels.last().len() {
            let c = choose|c: int| 0 <= c < init.len() && shortest(init) == #[trigger] init[c].len();
            assert(channels[c] == init[c]);
        } else {
            assert(channels[channels.len() - 1] == channels.last());
        }
    }
}

/// Lays planar channels out frame by frame, channel by channel within a
/// frame, as a WAV file stores them; channels longer than the shortest are
/// cut to its length.
pub fn interleave<S: Copy>(channels: &[Vec<S>]) -> (result: Result<Vec<S>, String>)
    ensures
        match result {
            Err(m) => (channels@.len() == 0 || channels@[0]@.len() == 0) && m@
                == "there is no audio to write"@,
            Ok(samples) => {
                let lanes = channels@.map_values(|c: Vec<S>| c@);
                &&& channels@.len() > 0 && channels@[0]@.len() > 0
                &&& samples@ == frames(lanes, 0, shortest(lanes))
            },
        },
{
    if channels.len() == 0 || channels[0].len() == 0 {
        return Err(String::from_str("there is no audio to write"));
    }
    let ghost lanes = channels@.map_values(|c: Vec<S>| c@);
    let n: usize = channels.len();
    let mut count: usize = channels[0].len();
    let mut c: usize = 1;
    assert(lanes.take(1).drop_last() =~= Seq::<Seq<S>>::empty());
    assert(shortest(lanes.take(1)) == lanes[0].len());
    while c < n
        invariant
            1 <= c <= n == channels@.len(),
            lanes == channels@.map_values(|c: Vec<S>| c@),
            count == shortest(lanes.take(c as int)),
        decreases n - c,
    {
        assert(lanes.take(c + 1).drop_last() =~= lanes.take(c as int));
        if channels[c].len() < count {
            count = channels[c].len();
        }
        c += 1;
    }
    assert(lanes.take(n as int) =~= lanes);
    proof {
        lemma_shortest_bounds(lanes);
    }
    let mut out: Vec<S> = Vec::new();
    let mut k: usize = 0;
    while k < count
        invariant
            k <= count == shortest(lanes),
            n == channels@.len() == lanes.len(),
            lanes == channels@.map_values(|c: Vec<S>| c@),
            forall|c: int| 0 <= c < lanes.len() ==> count <= #[trigger] lanes[c].len(),
            out@ == frames(lanes, 0, k as nat),
        decreases count - k,
    {
        let mut c: usize = 0;
        while c < n
            invariant
                k < count,
                c <= n == channels@.len() == lanes.len(),
                lanes == channels@.map_values(|c: Vec<S>| c@),
                forall|c: int| 0 <= c < lanes.len() ==> count <= #[trigger] lanes[c].len(),
                out@ == frames(lanes, 0, k as nat) + column(lanes, k as int).take(c as int),
            decreases n - c,
        {
            assert(lanes[c as int] == channels@[c as int]@);
            out.push(channels[c][k]);
            assert(column(lanes, k as int).take(c + 1) =~= column(lanes, k as int).take(
                c as int,
            ).push(lanes[c as int][k as int]));
            c += 1;
        }
        proof {
            assert(column(lanes, k as int).take(n as int) =~= column(lanes, k as int));
            lemma_frames_push(lanes, 0, k as nat);
        }
        k += 1;
    }
    Ok(out)
}

proof fn lemma_lane_of_frames<S>(channels: Seq<Seq<S>>, start: int, count: nat, c: int)
    requires
        channels.len() > 0,
        0 <= c < channels.len(),
        0 <= start,
        start + count <= channels[c].len(),
        forall|d: int| 0 <= d < channels.len() ==> start + count <= #[trigger] channels[d].len(),
    ensures
        lane(frames(channels, start, count), channels.len(), c as nat) == channels[c].subrange(
            start,
            start + count,
        ),
    decreases count,
{
    let n = channels.len();
    let all = frames(channels, start, count);
    if count == 0 {
        assert(channels[c].subrange(start, start) =~= Seq::<S>::empty());
    } else {
        let rest = frames(channels, start + 1, (count - 1) as nat);
        lemma_frames_len(channels, start, count);
        lemma_frames_len(channels, start + 1, (count - 1) as nat);
        lemma_lane_of_frames(channels, start + 1, (count - 1) as nat, c);
        assert(all == column(channels, start) + rest);
        assert(all[c] == channels[c][start]);
        if count == 1 {
            assert(all.len() == n);
            assert(channels[c].subrange(start, start + 1) =~= seq![channels[c][start]]);
        } else {
            assert(all.len() > n) by (nonlinear_arith)
                requires
                    all.len() == count * n,
                    count > 1,
                    n > 0,
            ;
            assert(all.skip(n as int) =~= rest);
            assert(channels[c].subrange(start, start + count) =~= seq![channels[c][start]]
                + channels[c].subrange(start + 1, start + count));
        }
    }
}

/// Splitting interleaved audio back into channels gives every channel back,
/// cut to the shortest: exporting and re-importing keeps the samples where
/// they were.
pub proof fn lemma_deinterleave_undoes_interleave<S>(channels: Seq<Seq<S>>, c: int)
    requires
        0 <= c < channels.len(),
    ensures
        lane(frames(channels, 0, shortest(channels)), channels.len(), c as nat) == channels[c].take(
            shortest(channels) as int,
        ),
{
    lemma_shortest_bounds(channels);
    lemma_lane_of_frames(channels, 0, shortest(channels), c);
}

} // verus!
