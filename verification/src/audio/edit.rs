//! Destructive edits over a clip's sample buffers.
//!
//! Every edit returns a new `DecodedAudio` rather than mutating in place: the
//! previous version goes on the clip's undo stack, and the file on disk is
//! never touched. Each channel is edited on its own, with the range clamped to
//! that channel's length where the edit clamps it.

use vstd::prelude::*;

use vstd::arithmetic::div_mod::{lemma_fundamental_div_mod_converse, lemma_mod_bound};

use super::decode::DecodedAudio;

verus! {

pub open spec fn min(a: int, b: int) -> int {
    if a <= b {
        a
    } else {
        b
    }
}

/// `s` with `[start, end)` replaced by `middle`, both ends clamped to `s`.
pub open spec fn spliced<S>(s: Seq<S>, start: int, end: int, middle: Seq<S>) -> Seq<S> {
    s.take(min(start, s.len() as int)) + middle + s.skip(min(end, s.len() as int))
}

/// The part of `s` inside `[start, end)`, both ends clamped to `s`.
pub open spec fn cropped<S>(s: Seq<S>, start: int, end: int) -> Seq<S> {
    s.subrange(min(start, s.len() as int), min(end, s.len() as int))
}

/// The result keeps the sample rate, codec and bit depth of the source.
pub open spec fn same_format<S>(r: DecodedAudio<S>, audio: DecodedAudio<S>) -> bool {
    &&& r.sample_rate == audio.sample_rate
    &&& r.codec@ == audio.codec@
    &&& r.bits_per_sample == audio.bits_per_sample
}

/// Cropping to `[start, end)` keeps the samples from the clamped start up to
/// the clamped end, in order.
pub proof fn lemma_cropped_samples<S>(samples: Seq<S>, start: int, end: int)
    requires
        0 <= start <= end,
    ensures
        ({
            let st = min(start, samples.len() as int);
            let e = min(end, samples.len() as int);
            let r = cropped(samples, start, end);
            &&& r.len() == e - st
            &&& forall|i: int| 0 <= i < r.len() ==> #[trigger] r[i] == samples[st + i]
        }),
{
}

/// Replacing `[start, end)` by `middle` keeps the samples before the clamped
/// start, then holds `middle`, then the samples from the clamped end on.
pub proof fn lemma_spliced_samples<S>(samples: Seq<S>, start: int, end: int, middle: Seq<S>)
    requires
        0 <= start <= end,
    ensures
        ({
            let st = min(start, samples.len() as int);
            let e = min(end, samples.len() as int);
            let m = middle.len() as int;
            let r = spliced(samples, start, end, middle);
            &&& r.len() == samples.len() - (e - st) + m
            &&& forall|j: int| 0 <= j < st ==> #[trigger] r[j] == samples[j]
            &&& forall|j: int| st <= j < st + m ==> #[trigger] r[j] == middle[j - st]
            &&& forall|j: int| st + m <= j < r.len() ==> #[trigger] r[j] == samples[j - m + (e - st)]
        }),
{
}

/// Two clips of the same format play at the same speed and pitch: they share
/// the sample rate, and the codec and bit depth they report.
pub proof fn lemma_same_format_keeps_rate<S>(r: DecodedAudio<S>, audio: DecodedAudio<S>)
    requires
        same_format(r, audio),
    ensures
        r.sample_rate == audio.sample_rate,
        r.codec@ == audio.codec@,
        r.bits_per_sample == audio.bits_per_sample,
{
}

/// Appends `src[from..to]` to `out`.
fn push_range<S: Copy>(out: &mut Vec<S>, src: &Vec<S>, from: usize, to: usize)
    requires
        from <= to <= src@.len(),
    ensures
        final(out)@ == old(out)@ + src@.subrange(from as int, to as int),
{
    let mut i: usize = from;
    while i < to
        invariant
            from <= i <= to <= src@.len(),
            out@ == old(out)@ + src@.subrange(from as int, i as int),
        decreases to - i,
    {
        out.push(src[i]);
        proof {
            assert(src@.subrange(from as int, i + 1) == src@.subrange(from as int, i as int).push(
                src@[i as int],
            ));
        }
        i += 1;
    }
}

/// `samples` with `[start, end)` replaced by `middle`, clamped to `samples`.
fn splice_channel<S: Copy>(samples: &Vec<S>, start: usize, end: usize, middle: &Vec<S>) -> (out: Vec<S>)
    ensures
        out@ == spliced(samples@, start as int, end as int, middle@),
{
    let len: usize = samples.len();
    let s: usize = if start < len { start } else { len };
    let e: usize = if end < len { end } else { len };
    let mut out: Vec<S> = Vec::new();
    push_range(&mut out, samples, 0, s);
    push_range(&mut out, middle, 0, middle.len());
    push_range(&mut out, samples, e, len);
    proof {
        assert(samples@.subrange(0, s as int) == samples@.take(s as int));
        assert(middle@.subrange(0, middle@.len() as int) == middle@);
        assert(samples@.subrange(e as int, len as int) == samples@.skip(e as int));
    }
    out
}

fn copy_format<S>(audio: &DecodedAudio<S>, channels: Vec<Vec<S>>) -> (r: DecodedAudio<S>)
    ensures
        same_format(r, *audio),
        r.sample_rate == audio.sample_rate,
        r.codec@ == audio.codec@,
        r.bits_per_sample == audio.bits_per_sample,
        r.channels == channels,
{
    DecodedAudio {
        channels,
        sample_rate: audio.sample_rate,
        codec: audio.codec.clone(),
        bits_per_sample: audio.bits_per_sample,
    }
}

/// An edit needs a selection: `[start, end)` must hold a frame.
pub fn check_selection(start: usize, end: usize) -> (result: Result<(), String>)
    ensures
        match result {
            Ok(()) => start < end,
            Err(m) => end <= start && m@ == "nothing is selected"@,
        },
{
    if end <= start {
        return Err(String::from_str("nothing is selected"));
    }
    Ok(())
}

/// Removes `[start, end)`, closing the gap.
pub fn delete_range<S: Copy>(audio: &DecodedAudio<S>, start: usize, end: usize) -> (result: Result<
    DecodedAudio<S>,
    String,
>)
    requires
        start < end && !(start == 0 && end >= audio.frame_count()) ==> forall|c: int|
            0 <= c < audio.channels@.len() ==> start <= #[trigger] audio.channels@[c]@.len() && end
                - start <= audio.channels@[c]@.len(),
    ensures
        match result {
            Err(m) => {
                ||| end <= start && m@ == "nothing is selected"@
                ||| start < end && start == 0 && end >= audio.frame_count() && m@
                    == "that would delete the whole clip — remove the track instead"@
            },
            Ok(r) => {
                &&& start < end && !(start == 0 && end >= audio.frame_count())
                &&& same_format(r, *audio)
                &&& r.sample_rate == audio.sample_rate
                &&& r.codec@ == audio.codec@
                &&& r.bits_per_sample == audio.bits_per_sample
                &&& r.channels@.len() == audio.channels@.len()
                &&& forall|c: int|
                    0 <= c < r.channels@.len() ==> #[trigger] r.channels@[c]@ == spliced(
                        audio.channels@[c]@,
                        start as int,
                        end as int,
                        Seq::empty(),
                    )
            },
        },
{
    let total: usize = audio.frame_count();
    if end <= start {
        return Err(String::from_str("nothing is selected"));
    }
    if start == 0 && end >= total {
        return Err(String::from_str("that would delete the whole clip — remove the track instead"));
    }
    let nothing: Vec<S> = Vec::new();
    let mut channels: Vec<Vec<S>> = Vec::new();
    let mut c: usize = 0;
    while c < audio.channels.len()
        invariant
            c <= audio.channels@.len(),
            nothing@ == Seq::<S>::empty(),
            channels@.len() == c,
            forall|k: int|
                0 <= k < c ==> #[trigger] channels@[k]@ == spliced(
                    audio.channels@[k]@,
                    start as int,
                    end as int,
                    Seq::empty(),
                ),
        decreases audio.channels@.len() - c,
    {
        channels.push(splice_channel(&audio.channels[c], start, end, &nothing));
        c += 1;
    }
    Ok(copy_format(audio, channels))
}

/// `s` repeated `n` times.
pub open spec fn repeated<S>(s: Seq<S>, n: nat) -> Seq<S>
    decreases n,
{
    if n == 0 {
        Seq::empty()
    } else {
        repeated(s, (n - 1) as nat) + s
    }
}

/// `n` samples that cycle through the first `period` samples of `source`.
pub open spec fn cycled<S>(source: Seq<S>, period: int, n: nat) -> Seq<S> {
    Seq::new(n, |i: int| source[i % period])
}

/// Keeps only `[start, end)`, discarding everything around it.
pub fn crop_range<S: Copy>(audio: &DecodedAudio<S>, start: usize, end: usize) -> (result: Result<
    DecodedAudio<S>,
    String,
>)
    ensures
        match result {
            Err(m) => end <= start && m@ == "nothing is selected"@,
            Ok(r) => {
                &&& start < end
                &&& same_format(r, *audio)
                &&& r.sample_rate == audio.sample_rate
                &&& r.codec@ == audio.codec@
                &&& r.bits_per_sample == audio.bits_per_sample
                &&& r.channels@.len() == audio.channels@.len()
                &&& forall|c: int|
                    0 <= c < r.channels@.len() ==> #[trigger] r.channels@[c]@ == cropped(
                        audio.channels@[c]@,
                        start as int,
                        end as int,
                    )
            },
        },
{
    if end <= start {
        return Err(String::from_str("nothing is selected"));
    }
    let mut channels: Vec<Vec<S>> = Vec::new();
    let mut c: usize = 0;
    while c < audio.channels.len()
        invariant
            start < end,
            c <= audio.channels@.len(),
            channels@.len() == c,
            forall|k: int|
                0 <= k < c ==> #[trigger] channels@[k]@ == cropped(
                    audio.channels@[k]@,
                    start as int,
                    end as int,
                ),
        decreases audio.channels@.len() - c,
    {
        let samples = &audio.channels[c];
        let len: usize = samples.len();
        let from: usize = if start < len { start } else { len };
        let to: usize = if end < len { end } else { len };
        let mut kept: Vec<S> = Vec::new();
        push_range(&mut kept, samples, from, to);
        channels.push(kept);
        c += 1;
    }
    Ok(copy_format(audio, channels))
}

/// Copies `[start, end)` out as a clip of its own, for the clipboard.
pub fn copy_range<S: Copy>(audio: &DecodedAudio<S>, start: usize, end: usize) -> (result: Result<
    DecodedAudio<S>,
    String,
>)
    ensures
        match result {
            Err(m) => end <= start && m@ == "nothing is selected"@,
            Ok(r) => {
                &&& start < end
                &&& same_format(r, *audio)
                &&& r.sample_rate == audio.sample_rate
                &&& r.codec@ == audio.codec@
                &&& r.bits_per_sample == audio.bits_per_sample
                &&& r.channels@.len() == audio.channels@.len()
                &&& forall|c: int|
                    0 <= c < r.channels@.len() ==> #[trigger] r.channels@[c]@ == cropped(
                        audio.channels@[c]@,
                        start as int,
                        end as int,
                    )
            },
        },
{
    crop_range(audio, start, end)
}

/// Reverses the audio in the range `[start, end)`, playing it backwards.
pub fn reverse_range<S: Copy>(audio: &DecodedAudio<S>, start: usize, end: usize) -> (result: Result<
    DecodedAudio<S>,
    String,
>)
    requires
        start < end ==> forall|c: int|
            0 <= c < audio.channels@.len() ==> start <= #[trigger] audio.channels@[c]@.len(),
    ensures
        match result {
            Err(m) => end <= start && m@ == "nothing is selected"@,
            Ok(r) => {
                &&& start < end
                &&& same_format(r, *audio)
                &&& r.sample_rate == audio.sample_rate
                &&& r.codec@ == audio.codec@
                &&& r.bits_per_sample == audio.bits_per_sample
                &&& r.channels@.len() == audio.channels@.len()
                &&& forall|c: int|
                    0 <= c < r.channels@.len() ==> #[trigger] r.channels@[c]@ == spliced(
                        audio.channels@[c]@,
                        start as int,
                        end as int,
                        cropped(audio.channels@[c]@, start as int, end as int).reverse(),
                    )
            },
        },
{
    if end <= start {
        return Err(String::from_str("nothing is selected"));
    }
    let mut channels: Vec<Vec<S>> = Vec::new();
    let mut c: usize = 0;
    while c < audio.channels.len()
        invariant
            start < end,
            c <= audio.channels@.len(),
            channels@.len() == c,
            forall|k: int|
                0 <= k < audio.channels@.len() ==> start <= #[trigger] audio.channels@[k]@.len(),
            forall|k: int|
                0 <= k < c ==> #[trigger] channels@[k]@ == spliced(
                    audio.channels@[k]@,
                    start as int,
                    end as int,
                    cropped(audio.channels@[k]@, start as int, end as int).reverse(),
                ),
        decreases audio.channels@.len() - c,
    {
        let samples = &audio.channels[c];
        let len: usize = samples.len();
        let to: usize = if end < len { end } else { len };
        assert(start <= len);
        let ghost selection = cropped(samples@, start as int, end as int);
        let mut backwards: Vec<S> = Vec::new();
        let mut i: usize = to;
        while i > start
            invariant
                start <= i <= to <= len == samples@.len(),
                selection == samples@.subrange(start as int, to as int),
                backwards@ == samples@.subrange(i as int, to as int).reverse(),
            decreases i - start,
        {
            i -= 1;
            backwards.push(samples[i]);
            assert(samples@.subrange(i as int, to as int).reverse() =~= samples@.subrange(
                i + 1,
                to as int,
            ).reverse().push(samples@[i as int]));
        }
        channels.push(splice_channel(samples, start, end, &backwards));
        c += 1;
    }
    Ok(copy_format(audio, channels))
}

/// Repeats the range `[start, end)` a given number of times, replacing it in the clip.
pub fn repeat_range<S: Copy>(audio: &DecodedAudio<S>, start: usize, end: usize, count: u32) -> (result:
    Result<DecodedAudio<S>, String>)
    requires
        start < end && count > 0 ==> forall|c: int|
            0 <= c < audio.channels@.len() ==> {
                let len = #[trigger] audio.channels@[c]@.len();
                let selected = cropped(audio.channels@[c]@, start as int, end as int).len();
                &&& end - start <= len
                &&& selected * count <= usize::MAX
                &&& len - (end - start) + selected * count <= usize::MAX
            },
    ensures
        match result {
            Err(m) => {
                ||| end <= start && m@ == "nothing is selected"@
                ||| start < end && count == 0 && m@ == "repeat count must be at least 1"@
            },
            Ok(r) => {
                &&& start < end && count > 0
                &&& same_format(r, *audio)
                &&& r.sample_rate == audio.sample_rate
                &&& r.codec@ == audio.codec@
                &&& r.bits_per_sample == audio.bits_per_sample
                &&& r.channels@.len() == audio.channels@.len()
                &&& forall|c: int|
                    0 <= c < r.channels@.len() ==> #[trigger] r.channels@[c]@ == spliced(
                        audio.channels@[c]@,
                        start as int,
                        end as int,
                        repeated(
                            cropped(audio.channels@[c]@, start as int, end as int),
                            count as nat,
                        ),
                    )
                &&& forall|c: int|
                    0 <= c < r.channels@.len() ==> {
                        let len = audio.channels@[c]@.len() as int;
                        let w = min(end as int, len) - min(start as int, len);
                        (#[trigger] r.channels@[c]@).len() == len - w + count * w
                    }
                &&& forall|c: int, j: int|
                    0 <= c < r.channels@.len() && 0 <= j < min(
                        start as int,
                        audio.channels@[c]@.len() as int,
                    ) ==> #[trigger] r.channels@[c]@[j] == audio.channels@[c]@[j]
                &&& forall|c: int, j: int|
                    0 <= c < r.channels@.len() ==> {
                        let a = audio.channels@[c]@;
                        let st = min(start as int, a.len() as int);
                        let w = min(end as int, a.len() as int) - st;
                        st <= j < st + count * w ==> #[trigger] r.channels@[c]@[j] == a[st + (j
                            - st) % w]
                    }
                &&& forall|c: int, j: int|
                    0 <= c < r.channels@.len() ==> {
                        let a = audio.channels@[c]@;
                        let st = min(start as int, a.len() as int);
                        let w = min(end as int, a.len() as int) - st;
                        st + count * w <= j < r.channels@[c]@.len() ==> #[trigger] r.channels@[c]@[j]
                            == a[j + w - count * w]
                    }
            },
        },
{
    if end <= start {
        return Err(String::from_str("nothing is selected"));
    }
    if count == 0 {
        return Err(String::from_str("repeat count must be at least 1"));
    }
    let mut channels: Vec<Vec<S>> = Vec::new();
    let mut c: usize = 0;
    while c < audio.channels.len()
        invariant
            start < end,
            c <= audio.channels@.len(),
            channels@.len() == c,
            forall|k: int|
                0 <= k < c ==> #[trigger] channels@[k]@ == spliced(
                    audio.channels@[k]@,
                    start as int,
                    end as int,
                    repeated(cropped(audio.channels@[k]@, start as int, end as int), count as nat),
                ),
        decreases audio.channels@.len() - c,
    {
        let samples = &audio.channels[c];
        let len: usize = samples.len();
        let from: usize = if start < len { start } else { len };
        let to: usize = if end < len { end } else { len };
        let ghost selection = cropped(samples@, start as int, end as int);
        let mut repeats: Vec<S> = Vec::new();
        let mut n: u32 = 0;
        while n < count
            invariant
                from <= to <= len == samples@.len(),
                selection == samples@.subrange(from as int, to as int),
                n <= count,
                repeats@ == repeated(selection, n as nat),
            decreases count - n,
        {
            push_range(&mut repeats, samples, from, to);
            n += 1;
        }
        channels.push(splice_channel(samples, start, end, &repeats));
        c += 1;
    }
    proof {
        assert forall|k: int| 0 <= k < channels@.len() implies {
            let a = audio.channels@[k]@;
            let st = min(start as int, a.len() as int);
            let w = min(end as int, a.len() as int) - st;
            let r = #[trigger] channels@[k]@;
            &&& r.len() == a.len() - w + count * w
            &&& forall|j: int| 0 <= j < st ==> #[trigger] r[j] == a[j]
            &&& forall|j: int| st <= j < st + count * w ==> #[trigger] r[j] == a[st + (j - st) % w]
            &&& forall|j: int| st + count * w <= j < r.len() ==> #[trigger] r[j] == a[j + w - count
                * w]
        } by {
            lemma_repeat_copies(audio.channels@[k]@, start as int, end as int, count as nat);
        }
    }
    Ok(copy_format(audio, channels))
}

/// `start` moved inside `[0, total]`.
pub open spec fn clamp_start(start: int, total: int) -> int {
    min(start, total)
}

/// `end` moved inside `[start, total]`, for a `start` already inside `[0, total]`.
pub open spec fn clamp_end(end: int, start: int, total: int) -> int {
    if end < start {
        start
    } else {
        min(end, total)
    }
}

/// Whether `fill_range` can run to completion on every channel: the
/// source it cycles through must be there to read from.
pub open spec fn fill_fits<S>(
    audio: DecodedAudio<S>,
    fill_start: int,
    fill_end: int,
    source_start: int,
    source_end: int,
) -> bool {
    let total = audio.frame_count() as int;
    let fs = clamp_start(fill_start, total);
    let fe = clamp_end(fill_end, fs, total);
    let ss = clamp_start(source_start, total);
    let se = clamp_end(source_end, ss, total);
    let gap = fe - fs;
    let source_len = se - ss;
    &&& gap > 0 ==> source_len > 0
    &&& forall|c: int|
        0 <= c < audio.channels@.len() ==> {
            let len = #[trigger] audio.channels@[c]@.len() as int;
            &&& ss <= len
            &&& gap <= len
            &&& gap > 0 ==> min(se, len) - ss >= min(gap, source_len)
        }
}

/// Fills the gap `[fill_start, fill_end)` by repeating audio from `[source_start, source_end)`.
pub fn fill_range<S: Copy>(
    audio: &DecodedAudio<S>,
    fill_start: usize,
    fill_end: usize,
    source_start: usize,
    source_end: usize,
) -> (result: Result<DecodedAudio<S>, String>)
    requires
        fill_start < fill_end && source_start < source_end ==> fill_fits(
            *audio,
            fill_start as int,
            fill_end as int,
            source_start as int,
            source_end as int,
        ),
    ensures
        match result {
            Err(m) => {
                ||| fill_end <= fill_start && m@ == "fill range is empty"@
                ||| fill_start < fill_end && source_end <= source_start && m@
                    == "source range is empty"@
            },
            Ok(r) => {
                let total = audio.frame_count() as int;
                let fs = clamp_start(fill_start as int, total);
                let fe = clamp_end(fill_end as int, fs, total);
                let ss = clamp_start(source_start as int, total);
                let se = clamp_end(source_end as int, ss, total);
                &&& fill_start < fill_end && source_start < source_end
                &&& same_format(r, *audio)
                &&& r.sample_rate == audio.sample_rate
                &&& r.codec@ == audio.codec@
                &&& r.bits_per_sample == audio.bits_per_sample
                &&& r.channels@.len() == audio.channels@.len()
                &&& forall|c: int|
                    0 <= c < r.channels@.len() ==> #[trigger] r.channels@[c]@ == spliced(
                        audio.channels@[c]@,
                        fs,
                        fe,
                        cycled(cropped(audio.channels@[c]@, ss, se), se - ss, (fe - fs) as nat),
                    )
            },
        },
{
    if fill_end <= fill_start {
        return Err(String::from_str("fill range is empty"));
    }
    if source_end <= source_start {
        return Err(String::from_str("source range is empty"));
    }
    let total: usize = audio.frame_count();
    let fs: usize = if fill_start < total { fill_start } else { total };
    let fe: usize = if fill_end < fs { fs } else if fill_end < total { fill_end } else { total };
    let ss: usize = if source_start < total { source_start } else { total };
    let se: usize = if source_end < ss { ss } else if source_end < total { source_end } else { total };
    let gap: usize = fe - fs;
    let source_len: usize = se - ss;

    let mut channels: Vec<Vec<S>> = Vec::new();
    let mut c: usize = 0;
    while c < audio.channels.len()
        invariant
            c <= audio.channels@.len(),
            channels@.len() == c,
            fill_fits(*audio, fill_start as int, fill_end as int, source_start as int, source_end as int),
            total == audio.frame_count(),
            fs == clamp_start(fill_start as int, total as int),
            fe == clamp_end(fill_end as int, fs as int, total as int),
            ss == clamp_start(source_start as int, total as int),
            se == clamp_end(source_end as int, ss as int, total as int),
            gap == fe - fs,
            source_len == se - ss,
            forall|k: int|
                0 <= k < c ==> #[trigger] channels@[k]@ == spliced(
                    audio.channels@[k]@,
                    fs as int,
                    fe as int,
                    cycled(cropped(audio.channels@[k]@, ss as int, se as int), source_len as int, gap as nat),
                ),
        decreases audio.channels@.len() - c,
    {
        let samples = &audio.channels[c];
        let len: usize = samples.len();
        assert(ss <= len && gap <= len);
        let ghost source = cropped(samples@, ss as int, se as int);
        let mut filled: Vec<S> = Vec::new();
        let mut i: usize = 0;
        while i < gap
            invariant
                i <= gap,
                gap > 0 ==> source_len > 0,
                gap > 0 ==> min(se as int, len as int) - ss >= min(gap as int, source_len as int),
                ss <= len == samples@.len(),
                source == samples@.subrange(ss as int, min(se as int, len as int)),
                filled@ == cycled(source, source_len as int, i as nat),
                source.len() == min(se as int, len as int) - ss,
            decreases gap - i,
        {
            let k: usize = i % source_len;
            assert(k < source_len && k <= i) by (nonlinear_arith)
                requires
                    k == i % source_len,
                    source_len > 0,
            ;
            filled.push(samples[ss + k]);
            assert(filled@ =~= cycled(source, source_len as int, (i + 1) as nat));
            i += 1;
        }
        channels.push(splice_channel(samples, fs, fe, &filled));
        c += 1;
    }
    Ok(copy_format(audio, channels))
}

/// Whether splicing `pasted` into the clamped range `[start, end)` of every
/// channel stays within what a `Vec` can be asked to hold.
pub open spec fn paste_fits<S>(audio: DecodedAudio<S>, start: int, end: int, pasted: Seq<Vec<S>>) -> bool {
    forall|c: int|
        0 <= c < audio.channels@.len() && c < pasted.len() ==> {
            let len = #[trigger] audio.channels@[c]@.len() as int;
            &&& end - start <= len
            &&& len - (end - start) + pasted[c]@.len() <= usize::MAX
        }
}

/// Replaces `[start, end)` with `insert`, which `conform` first converts to
/// this clip's sample rate and channel count. An empty range is a plain
/// insert; the range is clamped to the clip.
pub fn paste_range<S: Copy, F: FnOnce(&DecodedAudio<S>, u32, usize) -> Vec<Vec<S>>>(
    audio: &DecodedAudio<S>,
    start: usize,
    end: usize,
    insert: &DecodedAudio<S>,
    conform: F,
) -> (result: Result<DecodedAudio<S>, String>)
    requires
        insert.frame_count() > 0 ==> conform.requires(
            (insert, audio.sample_rate, audio.channels@.len() as usize),
        ),
        insert.frame_count() > 0 ==> forall|pasted: Vec<Vec<S>>|
            conform.ensures((insert, audio.sample_rate, audio.channels@.len() as usize), pasted)
                ==> paste_fits(
                *audio,
                clamp_start(start as int, audio.frame_count() as int),
                clamp_end(
                    end as int,
                    clamp_start(start as int, audio.frame_count() as int),
                    audio.frame_count() as int,
                ),
                pasted@,
            ),
    ensures
        match result {
            Err(m) => insert.frame_count() == 0 && m@ == "the clipboard is empty"@,
            Ok(r) => {
                let total = audio.frame_count() as int;
                let s = clamp_start(start as int, total);
                let e = clamp_end(end as int, s, total);
                &&& insert.frame_count() > 0
                &&& same_format(r, *audio)
                &&& r.sample_rate == audio.sample_rate
                &&& r.codec@ == audio.codec@
                &&& r.bits_per_sample == audio.bits_per_sample
                &&& exists|pasted: Vec<Vec<S>>|
                    {
                        &&& conform.ensures(
                            (insert, audio.sample_rate, audio.channels@.len() as usize),
                            pasted,
                        )
                        &&& r.channels@.len() == min(
                            audio.channels@.len() as int,
                            pasted@.len() as int,
                        )
                        &&& forall|c: int|
                            0 <= c < r.channels@.len() ==> #[trigger] r.channels@[c]@ == spliced(
                                audio.channels@[c]@,
                                s,
                                e,
                                pasted@[c]@,
                            )
                    }
            },
        },
{
    if insert.frame_count() == 0 {
        return Err(String::from_str("the clipboard is empty"));
    }
    let total: usize = audio.frame_count();
    let s: usize = if start < total { start } else { total };
    let e: usize = if end < s { s } else if end < total { end } else { total };
    let pasted = conform(insert, audio.sample_rate, audio.channel_count());
    let n: usize = if audio.channels.len() < pasted.len() { audio.channels.len() } else { pasted.len() };
    let mut channels: Vec<Vec<S>> = Vec::new();
    let mut c: usize = 0;
    while c < n
        invariant
            c <= n,
            n == min(audio.channels@.len() as int, pasted@.len() as int),
            channels@.len() == c,
            forall|k: int|
                0 <= k < c ==> #[trigger] channels@[k]@ == spliced(
                    audio.channels@[k]@,
                    s as int,
                    e as int,
                    pasted@[k]@,
                ),
        decreases n - c,
    {
        channels.push(splice_channel(&audio.channels[c], s, e, &pasted[c]));
        c += 1;
    }
    let r = copy_format(audio, channels);
    assert(r.channels@.len() == min(audio.channels@.len() as int, pasted@.len() as int));
    Ok(r)
}

/// Reshapes a clip to `channel_count` channels without touching its samples:
/// channel `c` is a copy of source channel `c`, and the last source channel is
/// repeated when the target has more.
pub fn spread_channels<S: Copy>(audio: &DecodedAudio<S>, channel_count: usize) -> (spread: Vec<Vec<S>>)
    requires
        channel_count > 0 ==> audio.channels@.len() > 0,
    ensures
        spread@.len() == channel_count,
        forall|c: int|
            0 <= c < channel_count ==> #[trigger] spread@[c]@ == audio.channels@[min(
                c,
                audio.channels@.len() - 1,
            )]@,
{
    let mut spread: Vec<Vec<S>> = Vec::new();
    let mut c: usize = 0;
    while c < channel_count
        invariant
            c <= channel_count,
            channel_count > 0 ==> audio.channels@.len() > 0,
            spread@.len() == c,
            forall|k: int|
                0 <= k < c ==> #[trigger] spread@[k]@ == audio.channels@[min(
                    k,
                    audio.channels@.len() - 1,
                )]@,
        decreases channel_count - c,
    {
        let last: usize = audio.channels.len() - 1;
        let from: usize = if c < last { c } else { last };
        let source = &audio.channels[from];
        let mut copy: Vec<S> = Vec::new();
        push_range(&mut copy, source, 0, source.len());
        assert(source@.subrange(0, source@.len() as int) == source@);
        spread.push(copy);
        c += 1;
    }
    spread
}

/// The conversion of a clip to `sample_rate` and `channel_count` where no
/// sample needs computing: the rates agree and the target is not a fold-down
/// of several channels to mono. Then the channels are spread as
/// `spread_channels` does; otherwise there is no exact conversion (`None`).
pub fn conform_exact<S: Copy>(audio: &DecodedAudio<S>, sample_rate: u32, channel_count: usize) -> (result:
    Option<Vec<Vec<S>>>)
    requires
        channel_count > 0 ==> audio.channels@.len() > 0,
    ensures
        result is Some <==> (audio.sample_rate == sample_rate && !(channel_count == 1
            && audio.channels@.len() > 1)),
        result matches Some(spread) ==> {
            &&& spread@.len() == channel_count
            &&& forall|c: int|
                0 <= c < channel_count ==> #[trigger] spread@[c]@ == audio.channels@[min(
                    c,
                    audio.channels@.len() - 1,
                )]@
        },
{
    if audio.sample_rate != sample_rate || (channel_count == 1 && audio.channels.len() > 1) {
        return None;
    }
    Some(spread_channels(audio, channel_count))
}

/// Rewrites every sample inside `[start, end)` with `f(index, sample)` and
/// keeps the rest; `index` counts frames from the start of the channel.
pub fn apply_in_range<S: Copy, F: Fn(usize, S) -> S>(
    audio: &DecodedAudio<S>,
    start: usize,
    end: usize,
    f: F,
) -> (r: DecodedAudio<S>)
    requires
        forall|i: usize, x: S| f.requires((i, x)),
    ensures
        same_format(r, *audio),
        r.sample_rate == audio.sample_rate,
        r.codec@ == audio.codec@,
        r.bits_per_sample == audio.bits_per_sample,
        r.channels@.len() == audio.channels@.len(),
        forall|c: int|
            0 <= c < r.channels@.len() ==> #[trigger] r.channels@[c]@.len()
                == audio.channels@[c]@.len(),
        forall|c: int, i: int|
            0 <= c < r.channels@.len() && 0 <= i < r.channels@[c]@.len() ==> if start <= i < end {
                f.ensures((i as usize, audio.channels@[c]@[i]), #[trigger] r.channels@[c]@[i])
            } else {
                r.channels@[c]@[i] == audio.channels@[c]@[i]
            },
{
    let mut channels: Vec<Vec<S>> = Vec::new();
    let mut c: usize = 0;
    while c < audio.channels.len()
        invariant
            forall|i: usize, x: S| f.requires((i, x)),
            c <= audio.channels@.len(),
            channels@.len() == c,
            forall|k: int| 0 <= k < c ==> #[trigger] channels@[k]@.len() == audio.channels@[k]@.len(),
            forall|k: int, i: int|
                0 <= k < c && 0 <= i < channels@[k]@.len() ==> if start <= i < end {
                    f.ensures((i as usize, audio.channels@[k]@[i]), #[trigger] channels@[k]@[i])
                } else {
                    channels@[k]@[i] == audio.channels@[k]@[i]
                },
        decreases audio.channels@.len() - c,
    {
        let samples = &audio.channels[c];
        let mut out: Vec<S> = Vec::new();
        let mut i: usize = 0;
        while i < samples.len()
            invariant
                forall|i: usize, x: S| f.requires((i, x)),
                i <= samples@.len(),
                out@.len() == i,
                forall|j: int|
                    0 <= j < i ==> if start <= j < end {
                        f.ensures((j as usize, samples@[j]), #[trigger] out@[j])
                    } else {
                        out@[j] == samples@[j]
                    },
            decreases samples@.len() - i,
        {
            let x = samples[i];
            if i >= start && i < end {
                out.push(f(i, x));
            } else {
                out.push(x);
            }
            i += 1;
        }
        channels.push(out);
        c += 1;
    }
    copy_format(audio, channels)
}

/// Sample `i` of `middle` is what `f` gives for `selection` and `i`.
pub open spec fn computed_by<S, F: Fn(&Vec<S>, usize) -> S>(f: F, selection: Vec<S>, middle: Seq<S>) -> bool {
    forall|i: int| 0 <= i < middle.len() ==> f.ensures((&selection, i as usize), #[trigger] middle[i])
}

/// `out` is `samples` with its selection `[start, end)` replaced by `new_len`
/// samples that `f` computed from that selection.
pub open spec fn resampled_channel<S, F: Fn(&Vec<S>, usize) -> S>(
    f: F,
    samples: Seq<S>,
    start: int,
    end: int,
    new_len: nat,
    out: Seq<S>,
) -> bool {
    exists|middle: Seq<S>, selection: Vec<S>|
        {
            &&& out == spliced(samples, start, end, middle)
            &&& middle.len() == new_len
            &&& selection@ == cropped(samples, start, end)
            &&& #[trigger] computed_by(f, selection, middle)
        }
}

/// Replaces `[start, end)` of every channel with `new_len` samples computed
/// from that channel's selection: sample `i` is `f(&selection, i)`.
pub fn resample_range<S: Copy, F: Fn(&Vec<S>, usize) -> S>(
    audio: &DecodedAudio<S>,
    start: usize,
    end: usize,
    new_len: usize,
    f: F,
) -> (r: DecodedAudio<S>)
    requires
        start <= end,
        forall|c: int|
            0 <= c < audio.channels@.len() ==> start <= #[trigger] audio.channels@[c]@.len(),
        forall|selection: &Vec<S>, i: usize| f.requires((selection, i)),
    ensures
        same_format(r, *audio),
        r.sample_rate == audio.sample_rate,
        r.codec@ == audio.codec@,
        r.bits_per_sample == audio.bits_per_sample,
        r.channels@.len() == audio.channels@.len(),
        forall|c: int|
            0 <= c < r.channels@.len() ==> resampled_channel(
                f,
                audio.channels@[c]@,
                start as int,
                end as int,
                new_len as nat,
                #[trigger] r.channels@[c]@,
            ),
{
    let mut channels: Vec<Vec<S>> = Vec::new();
    let mut c: usize = 0;
    while c < audio.channels.len()
        invariant
            start <= end,
            forall|k: int|
                0 <= k < audio.channels@.len() ==> start <= #[trigger] audio.channels@[k]@.len(),
            forall|selection: &Vec<S>, i: usize| f.requires((selection, i)),
            c <= audio.channels@.len(),
            channels@.len() == c,
            forall|k: int|
                0 <= k < c ==> resampled_channel(
                    f,
                    audio.channels@[k]@,
                    start as int,
                    end as int,
                    new_len as nat,
                    #[trigger] channels@[k]@,
                ),
        decreases audio.channels@.len() - c,
    {
        let samples = &audio.channels[c];
        let len: usize = samples.len();
        let to: usize = if end < len { end } else { len };
        assert(start <= len);
        let mut selection: Vec<S> = Vec::new();
        push_range(&mut selection, samples, start, to);
        assert(selection@ == cropped(samples@, start as int, end as int));
        let mut middle: Vec<S> = Vec::new();
        let mut i: usize = 0;
        while i < new_len
            invariant
                forall|selection: &Vec<S>, i: usize| f.requires((selection, i)),
                i <= new_len,
                middle@.len() == i,
                forall|j: int| 0 <= j < i ==> f.ensures((&selection, j as usize), #[trigger] middle@[j]),
            decreases new_len - i,
        {
            middle.push(f(&selection, i));
            i += 1;
        }
        assert(computed_by(f, selection, middle@));
        let out = splice_channel(samples, start, end, &middle);
        assert(resampled_channel(f, samples@, start as int, end as int, new_len as nat, out@));
        channels.push(out);
        c += 1;
    }
    copy_format(audio, channels)
}

/// Cutting a selection out of a channel and pasting it back where it was
/// gives the channel back unchanged; the cut shortens the channel by exactly
/// the length of the selection.
pub proof fn lemma_cut_then_paste_restores<S>(samples: Seq<S>, start: int, end: int)
    requires
        0 <= start < end <= samples.len(),
    ensures
        spliced(samples, start, end, Seq::empty()).len() == samples.len() - (end - start),
        spliced(
            spliced(samples, start, end, Seq::empty()),
            start,
            start,
            cropped(samples, start, end),
        ) == samples,
{
    let cut = spliced(samples, start, end, Seq::empty());
    assert(cut =~= samples.take(start) + samples.skip(end));
    assert(cut.take(start) =~= samples.take(start));
    assert(cut.skip(start) =~= samples.skip(end));
    assert(samples.take(start) + samples.subrange(start, end) + samples.skip(end) =~= samples);
}

/// Cutting a selection out of a clip and pasting it back where it was gives
/// the clip back: `copy_range` gives `cut`, `delete_range` gives `without`,
/// and `paste_range` at `start`, with a conversion that hands back the
/// clipboard's own channels (as `conform_exact` does for a clip of the same
/// rate and channel count), gives `restored`.
pub proof fn lemma_cut_then_paste_restores_clip<S>(
    audio: DecodedAudio<S>,
    start: usize,
    end: usize,
    cut: DecodedAudio<S>,
    without: DecodedAudio<S>,
    pasted: Seq<Vec<S>>,
    restored: DecodedAudio<S>,
)
    requires
        start < end,
        forall|c: int| 0 <= c < audio.channels@.len() ==> end <= #[trigger] audio.channels@[c]@.len(),
        cut.channels@.len() == audio.channels@.len(),
        forall|c: int|
            0 <= c < cut.channels@.len() ==> #[trigger] cut.channels@[c]@ == cropped(
                audio.channels@[c]@,
                start as int,
                end as int,
            ),
        without.channels@.len() == audio.channels@.len(),
        forall|c: int|
            0 <= c < without.channels@.len() ==> #[trigger] without.channels@[c]@ == spliced(
                audio.channels@[c]@,
                start as int,
                end as int,
                Seq::empty(),
            ),
        pasted.len() == cut.channels@.len(),
        forall|c: int| 0 <= c < pasted.len() ==> #[trigger] pasted[c]@ == cut.channels@[c]@,
        restored.channels@.len() == min(without.channels@.len() as int, pasted.len() as int),
        forall|c: int|
            0 <= c < restored.channels@.len() ==> #[trigger] restored.channels@[c]@ == spliced(
                without.channels@[c]@,
                clamp_start(start as int, without.frame_count() as int),
                clamp_end(
                    start as int,
                    clamp_start(start as int, without.frame_count() as int),
                    without.frame_count() as int,
                ),
                pasted[c]@,
            ),
    ensures
        restored.channels@.len() == audio.channels@.len(),
        forall|c: int|
            0 <= c < audio.channels@.len() ==> #[trigger] restored.channels@[c]@
                == audio.channels@[c]@,
{
    if audio.channels@.len() > 0 {
        assert(end <= audio.channels@[0]@.len());
        assert(without.channels@[0]@ == spliced(audio.channels@[0]@, start as int, end as int, Seq::empty()));
        assert(without.frame_count() as int == audio.channels@[0]@.len() - (end - start));
    }
    assert forall|c: int| 0 <= c < audio.channels@.len() implies #[trigger] restored.channels@[c]@
        == audio.channels@[c]@ by {
        let s = audio.channels@[c]@;
        assert(end <= s.len());
        lemma_cut_then_paste_restores(s, start as int, end as int);
        assert(restored.channels@[c]@ == spliced(
            without.channels@[c]@,
            start as int,
            start as int,
            pasted[c]@,
        ));
    }
}

/// Reversing the same selection twice gives the channel back unchanged.
pub proof fn lemma_reverse_twice_restores<S>(samples: Seq<S>, start: int, end: int)
    requires
        0 <= start <= end,
        start <= samples.len(),
    ensures
        ({
            let once = spliced(samples, start, end, cropped(samples, start, end).reverse());
            spliced(once, start, end, cropped(once, start, end).reverse()) == samples
        }),
{
    let e = min(end, samples.len() as int);
    let selection = samples.subrange(start, e);
    let once = spliced(samples, start, end, selection.reverse());
    assert(once =~= samples.take(start) + selection.reverse() + samples.skip(e));
    assert(once.len() == samples.len());
    assert(cropped(once, start, end) =~= selection.reverse());
    assert(selection.reverse().reverse() =~= selection);
    assert(once.take(start) =~= samples.take(start));
    assert(once.skip(e) =~= samples.skip(e));
    assert(samples.take(start) + selection + samples.skip(e) =~= samples);
}

/// Repeating a selection once leaves the channel unchanged.
pub proof fn lemma_repeat_once_is_identity<S>(samples: Seq<S>, start: int, end: int)
    requires
        0 <= start <= end,
    ensures
        spliced(samples, start, end, repeated(cropped(samples, start, end), 1)) == samples,
{
    let a = min(start, samples.len() as int);
    let e = min(end, samples.len() as int);
    let selection = cropped(samples, start, end);
    assert(repeated(selection, 0) =~= Seq::<S>::empty());
    assert(repeated(selection, 1) =~= selection);
    assert(samples.take(a) + samples.subrange(a, e) + samples.skip(e) =~= samples);
}

/// Repeating a selection `count` times makes the channel longer by
/// `count - 1` copies of the selection.
pub proof fn lemma_repeat_len<S>(samples: Seq<S>, start: int, end: int, count: nat)
    requires
        0 <= start <= end,
        count > 0,
    ensures
        spliced(samples, start, end, repeated(cropped(samples, start, end), count)).len()
            == samples.len() + (count - 1) * cropped(samples, start, end).len(),
    decreases count,
{
    let selection = cropped(samples, start, end);
    lemma_repeated_len(selection, count);
    assert(count * selection.len() == selection.len() + (count - 1) * selection.len())
        by (nonlinear_arith);
}

/// `n` repeats of `s` are `n` identical copies of it, one after another: the
/// sample at position `j` is the one at `j` modulo the length of `s`, so every
/// copy starts again at the first sample of `s`.
pub proof fn lemma_repeated_cycles<S>(s: Seq<S>, n: nat)
    ensures
        repeated(s, n).len() == n * s.len(),
        forall|j: int| 0 <= j < repeated(s, n).len() ==> #[trigger] repeated(s, n)[j] == s[j % (s.len() as int)],
    decreases n,
{
    lemma_repeated_len(s, n);
    if n > 0 {
        let m = (n - 1) as nat;
        lemma_repeated_cycles(s, m);
        lemma_repeated_len(s, m);
        assert forall|j: int| 0 <= j < repeated(s, n).len() implies #[trigger] repeated(s, n)[j]
            == s[j % (s.len() as int)] by {
            if j >= repeated(s, m).len() {
                let i = j - m * s.len();
                assert(repeated(s, n)[j] == s[i]);
                lemma_fundamental_div_mod_converse(j, s.len() as int, m as int, i);
            }
        }
    }
}

/// Repeating the selection `[start, end)` of a channel `count` times keeps
/// the samples before it, then holds `count` copies of the selection, each
/// starting again at its first sample, then the samples after it. Both ends
/// are clamped to the channel.
pub proof fn lemma_repeat_copies<S>(samples: Seq<S>, start: int, end: int, count: nat)
    requires
        0 <= start <= end,
    ensures
        ({
            let st = min(start, samples.len() as int);
            let w = min(end, samples.len() as int) - st;
            let r = spliced(samples, start, end, repeated(cropped(samples, start, end), count));
            &&& r.len() == samples.len() - w + count * w
            &&& forall|j: int| 0 <= j < st ==> #[trigger] r[j] == samples[j]
            &&& forall|j: int|
                st <= j < st + count * w ==> #[trigger] r[j] == samples[st + (j - st) % w]
            &&& forall|j: int|
                st + count * w <= j < r.len() ==> #[trigger] r[j] == samples[j + w - count * w]
        }),
{
    let st = min(start, samples.len() as int);
    let w = min(end, samples.len() as int) - st;
    let selection = cropped(samples, start, end);
    let middle = repeated(selection, count);
    let r = spliced(samples, start, end, middle);
    lemma_repeated_cycles(selection, count);
    assert(selection.len() == w);
    assert(r =~= samples.take(st) + middle + samples.skip(st + w));
    assert forall|j: int| st <= j < st + count * w implies #[trigger] r[j] == samples[st + (j - st)
        % w] by {
        assert(r[j] == middle[j - st]);
        assert(0 <= (j - st) % w < w) by {
            lemma_mod_bound(j - st, w);
        }
    }
}

proof fn lemma_repeated_len<S>(s: Seq<S>, n: nat)
    ensures
        repeated(s, n).len() == n * s.len(),
    decreases n,
{
    if n > 0 {
        lemma_repeated_len(s, (n - 1) as nat);
        assert(n * s.len() == (n - 1) * s.len() + s.len()) by (nonlinear_arith);
    } else {
        assert(n * s.len() == 0) by (nonlinear_arith)
            requires
                n == 0,
        ;
    }
}

} // verus!
