//! Audio samples: PCM S16LE, and cutting a stream of samples into chunks of
//! ten milliseconds.

use std::collections::VecDeque;
use vstd::prelude::*;

verus! {

/// A sample of 16 bits, read as unsigned.
pub open spec fn sample_bits(v: i16) -> nat {
    if v < 0 {
        (v + 0x1_0000) as nat
    } else {
        v as nat
    }
}

/// Two bytes as a sample, least significant byte first.
pub open spec fn sample_of(low: u8, high: u8) -> i16 {
    let v = high * 256 + low;
    (if v >= 0x8000 {
        v - 0x1_0000
    } else {
        v
    }) as i16
}

/// The samples in `bytes`. An odd byte at the end is left out.
pub open spec fn samples_of(bytes: Seq<u8>) -> Seq<i16> {
    Seq::new(bytes.len() / 2, |i: int| sample_of(bytes[2 * i], bytes[2 * i + 1]))
}

/// `samples` as bytes, least significant byte first.
pub open spec fn sample_bytes(samples: Seq<i16>) -> Seq<u8> {
    Seq::new(
        2 * samples.len(),
        |j: int|
            if j % 2 == 0 {
                (sample_bits(samples[j / 2]) % 256) as u8
            } else {
                (sample_bits(samples[j / 2]) / 256) as u8
            },
    )
}

/// Samples that were written as bytes are read back as they were.
pub proof fn samples_read_back(samples: Seq<i16>)
    ensures
        samples_of(sample_bytes(samples)) == samples,
{
    let bytes = sample_bytes(samples);
    assert forall|i: int| 0 <= i < samples.len() implies samples_of(bytes)[i] == samples[i] by {
        assert((2 * i) / 2 == i);
        assert((2 * i + 1) / 2 == i);
        assert((2 * i + 1) % 2 == 1);
    }
    assert(samples_of(bytes) =~= samples);
}

/// The samples in `bytes`.
pub fn decode_samples(bytes: &[u8]) -> (r: Vec<i16>)
    ensures
        r@ == samples_of(bytes@),
{
    let total: usize = bytes.len();
    let count: usize = total / 2;
    let mut samples: Vec<i16> = Vec::with_capacity(count);
    let mut i: usize = 0;
    while i < count
        invariant
            i <= count,
            count == total / 2,
            total == bytes@.len(),
            samples@ == samples_of(bytes@).take(i as int),
        decreases count - i,
    {
        let low = bytes[2 * i] as i32;
        let high = bytes[2 * i + 1] as i32;
        let v: i32 = high * 256 + low;
        let sample: i16 = if v >= 0x8000 {
            (v - 0x1_0000) as i16
        } else {
            v as i16
        };
        samples.push(sample);
        i += 1;
        assert(samples@ =~= samples_of(bytes@).take(i as int));
    }
    assert(samples_of(bytes@).take(count as int) =~= samples_of(bytes@));
    samples
}

/// `samples` as bytes, least significant byte first.
pub fn encode_samples(samples: &[i16]) -> (r: Vec<u8>)
    ensures
        r@ == sample_bytes(samples@),
{
    let mut bytes: Vec<u8> = Vec::new();
    let mut i: usize = 0;
    while i < samples.len()
        invariant
            i <= samples@.len(),
            bytes@ == sample_bytes(samples@).take(2 * i),
        decreases samples@.len() - i,
    {
        let v = samples[i];
        let bits: u16 = if v < 0 {
            (v as i32 + 0x1_0000) as u16
        } else {
            v as u16
        };
        bytes.push((bits % 256) as u8);
        bytes.push((bits / 256) as u8);
        proof {
            assert((2 * i) / 2 == i);
            assert((2 * i + 1) / 2 == i);
            assert((2 * i + 1) % 2 == 1);
        }
        i += 1;
        assert(bytes@ =~= sample_bytes(samples@).take(2 * i));
    }
    assert(sample_bytes(samples@).take(2 * i) =~= sample_bytes(samples@));
    bytes
}

/// A sample that waits for its chunk: its value, the timestamp of the frame
/// that it came in, and its place in that frame.
pub struct PendingSample {
    pub value: i16,
    pub pts_ms: i64,
    pub index: nat,
}

/// The time, in milliseconds, from the start of a frame to its sample
/// `index`.
pub open spec fn sample_delay_ms(index: nat, channels: nat, sample_rate: nat) -> nat {
    index / channels * 1000 / sample_rate
}

/// Whether the time of every sample of a frame of `count` samples fits.
pub open spec fn frame_time_fits(
    pts_ms: i64,
    count: nat,
    channels: nat,
    sample_rate: nat,
) -> bool {
    &&& count / channels * 1000 <= u64::MAX
    &&& sample_delay_ms(count, channels, sample_rate) <= i64::MAX
    &&& pts_ms + sample_delay_ms(count, channels, sample_rate) <= i64::MAX
}

/// The values of samples that wait.
pub open spec fn values(pending: Seq<PendingSample>) -> Seq<i16> {
    pending.map_values(|p: PendingSample| p.value)
}

/// The samples of a frame, as they wait.
pub open spec fn frame_samples(samples: Seq<i16>, pts_ms: i64) -> Seq<PendingSample> {
    Seq::new(
        samples.len(),
        |i: int| PendingSample { value: samples[i], pts_ms, index: i as nat },
    )
}

/// The number of samples in ten milliseconds, over all channels.
pub open spec fn chunk_len(sample_rate: u32, channels: u32) -> nat {
    sample_rate as nat / 100 * channels as nat
}

/// Whether there is audio to cut.
pub open spec fn is_audio(sample_rate: u32, channels: u32) -> bool {
    sample_rate > 0 && channels > 0
}

/// The time of a chunk that starts with the sample `first`.
pub open spec fn chunk_time_ms(first: PendingSample, channels: nat, sample_rate: nat) -> int {
    first.pts_ms + sample_delay_ms(first.index, channels, sample_rate)
}

/// A piece of a frame that still waits.
struct AudioSegment {
    pts_ms: i64,
    samples: Vec<i16>,
    offset: usize,
}

impl AudioSegment {
    /// The samples of the piece, as they wait.
    spec fn pending(&self) -> Seq<PendingSample> {
        Seq::new(
            (self.samples@.len() - self.offset) as nat,
            |i: int|
                PendingSample {
                    value: self.samples@[self.offset + i],
                    pts_ms: self.pts_ms,
                    index: (self.offset + i) as nat,
                },
        )
    }

    /// At least one sample waits, and the time of each fits.
    spec fn wf(&self, channels: nat, sample_rate: nat) -> bool {
        &&& self.offset < self.samples@.len()
        &&& frame_time_fits(self.pts_ms, self.samples@.len(), channels, sample_rate)
    }
}

/// The samples of pieces, one behind the other.
spec fn flatten(segments: Seq<AudioSegment>) -> Seq<PendingSample>
    decreases segments.len(),
{
    if segments.len() == 0 {
        Seq::empty()
    } else {
        segments[0].pending() + flatten(segments.skip(1))
    }
}

proof fn lemma_flatten_push(segments: Seq<AudioSegment>, last: AudioSegment)
    ensures
        flatten(segments.push(last)) == flatten(segments) + last.pending(),
    decreases segments.len(),
{
    let pushed = segments.push(last);
    if segments.len() == 0 {
        reveal_with_fuel(flatten, 2);
        assert(flatten(pushed) =~= flatten(segments) + last.pending());
    } else {
        lemma_flatten_push(segments.skip(1), last);
        assert(pushed.skip(1) =~= segments.skip(1).push(last));
        let first = segments[0].pending();
        let middle = flatten(segments.skip(1));
        assert(flatten(pushed) == first + (middle + last.pending()));
        assert(first + (middle + last.pending()) =~= (first + middle) + last.pending());
    }
}

/// Ten milliseconds of audio.
#[derive(Debug, Clone)]
pub struct AudioChunk {
    pub pts_ms: i64,
    pub samples: Vec<i16>,
}

/// The audio cannot be cut: it has no sample rate or no channels.
#[derive(Debug, Clone, Copy, PartialEq, Eq, Structural)]
pub struct InvalidAudioConfig;

impl InvalidAudioConfig {
    /// The error as a message.
    pub fn message(&self) -> (r: &'static str)
        ensures
            r@ == "Invalid audio configuration"@,
    {
        "Invalid audio configuration"
    }
}

/// Cuts the samples of audio frames into chunks of ten milliseconds.
pub struct AudioChunker {
    sample_rate: u32,
    channels: u32,
    segments: VecDeque<AudioSegment>,
    pending_samples: usize,
}

impl AudioChunker {
    /// There is audio to cut, the samples that wait are counted, and the time
    /// of each of them fits.
    pub closed spec fn wf(&self) -> bool {
        &&& self.sample_rate > 0
        &&& self.channels > 0
        &&& chunk_len(self.sample_rate, self.channels) <= usize::MAX
        &&& self.pending_samples == flatten(self.segments@).len()
        &&& forall|i: int|
            0 <= i < self.segments@.len() ==> (#[trigger] self.segments@[i]).wf(
                self.channels as nat,
                self.sample_rate as nat,
            )
    }

    /// The samples that wait, in order.
    pub closed spec fn pending(&self) -> Seq<PendingSample> {
        flatten(self.segments@)
    }

    /// The number of samples a second of each channel.
    pub closed spec fn rate(&self) -> u32 {
        self.sample_rate
    }

    /// The number of channels.
    pub closed spec fn channel_count(&self) -> u32 {
        self.channels
    }

    /// The number of samples in a chunk.
    pub open spec fn chunk(&self) -> nat {
        chunk_len(self.rate(), self.channel_count())
    }

    /// Start with no samples.
    pub fn new(sample_rate: u32, channels: u32) -> (r: Result<Self, InvalidAudioConfig>)
        requires
            chunk_len(sample_rate, channels) <= usize::MAX,
        ensures
            r is Err <==> sample_rate == 0 || channels == 0,
            r is Ok <==> is_audio(sample_rate, channels),
            r matches Ok(c) ==> {
                &&& c.wf()
                &&& c.pending() == Seq::<PendingSample>::empty()
                &&& c.rate() == sample_rate
                &&& c.channel_count() == channels
            },
    {
        if sample_rate == 0 || channels == 0 {
            return Err(InvalidAudioConfig);
        }
        Ok(Self { sample_rate, channels, segments: VecDeque::new(), pending_samples: 0 })
    }

    /// The number of samples per channel in a chunk.
    pub fn samples_per_chunk(&self) -> (r: u32)
        ensures
            r == self.rate() / 100,
    {
        self.sample_rate / 100
    }

    /// Whether an audio frame of `payload_len` bytes can be added.
    pub fn can_push(&self, timestamp_ms: i64, payload_len: usize) -> (r: bool)
        requires
            self.wf(),
        ensures
            r <==> self.pending().len() + payload_len / 2 <= usize::MAX && frame_time_fits(
                timestamp_ms,
                (payload_len / 2) as nat,
                self.channel_count() as nat,
                self.rate() as nat,
            ),
    {
        let count: usize = payload_len / 2;
        if self.pending_samples > usize::MAX - count {
            return false;
        }
        let per_channel: usize = count / self.channels as usize;
        if per_channel as u128 * 1000 > u64::MAX as u128 {
            return false;
        }
        let delay_ms: u64 = per_channel as u64 * 1000 / self.sample_rate as u64;
        if delay_ms > i64::MAX as u64 {
            return false;
        }
        timestamp_ms.checked_add(delay_ms as i64).is_some()
    }

    /// Add the samples of an audio frame.
    pub fn push_frame(&mut self, timestamp_ms: i64, payload: &[u8])
        requires
            old(self).wf(),
            old(self).pending().len() + payload@.len() / 2 <= usize::MAX,
            frame_time_fits(
                timestamp_ms,
                payload@.len() / 2,
                old(self).channel_count() as nat,
                old(self).rate() as nat,
            ),
        ensures
            final(self).wf(),
            final(self).pending() == old(self).pending() + frame_samples(
                samples_of(payload@),
                timestamp_ms,
            ),
            final(self).rate() == old(self).rate(),
            final(self).channel_count() == old(self).channel_count(),
    {
        let samples = decode_samples(payload);
        if samples.len() == 0 {
            assert(self.pending() =~= old(self).pending() + frame_samples(
                samples_of(payload@),
                timestamp_ms,
            ));
            return ;
        }
        self.pending_samples = self.pending_samples + samples.len();
        let segment = AudioSegment { pts_ms: timestamp_ms, samples, offset: 0 };
        proof {
            lemma_flatten_push(self.segments@, segment);
            assert(segment.pending() =~= frame_samples(samples_of(payload@), timestamp_ms));
        }
        self.segments.push_back(segment);
    }

    /// Take the next chunk, if enough samples wait. Its timestamp is that of
    /// its first sample. Audio of fewer than 100 samples a second has no
    /// chunks.
    pub fn next_chunk(&mut self) -> (r: Option<AudioChunk>)
        requires
            old(self).wf(),
        ensures
            final(self).wf(),
            final(self).rate() == old(self).rate(),
            final(self).channel_count() == old(self).channel_count(),
            r is Some <==> 0 < old(self).chunk() <= old(self).pending().len(),
            r is None ==> final(self).pending() == old(self).pending(),
            r matches Some(chunk) ==> {
                let first = old(self).pending()[0];
                &&& chunk.samples@ == values(old(self).pending().take(old(self).chunk() as int))
                &&& chunk.pts_ms == first.pts_ms + sample_delay_ms(
                    first.index,
                    old(self).channel_count() as nat,
                    old(self).rate() as nat,
                )
                &&& final(self).pending() == old(self).pending().skip(old(self).chunk() as int)
                &&& chunk.pts_ms == chunk_time_ms(
                    first,
                    old(self).channel_count() as nat,
                    old(self).rate() as nat,
                )
                &&& chunk.samples@.len() == old(self).chunk()
                // No sample is lost or moved.
                &&& chunk.samples@ + values(final(self).pending()) == values(old(self).pending())
            },
    {
        let samples_per_10ms: usize = (self.sample_rate / 100) as usize;
        let num_channels: usize = self.channels as usize;
        let chunk_samples: usize = samples_per_10ms * num_channels;
        if chunk_samples == 0 || self.pending_samples < chunk_samples {
            return None;
        }
        let ghost before = self.pending();
        proof {
            if self.segments@.len() == 0 {
                assert(before.len() == 0);
            }
            assert(before[0] == self.segments@[0].pending()[0]);
        }
        let base_pts_ms: i64 = self.segments[0].pts_ms;
        let pts_offset: usize = self.segments[0].offset;
        proof {
            lemma_delay_fits(
                base_pts_ms,
                pts_offset as nat,
                self.segments@[0].samples@.len(),
                self.channels as nat,
                self.sample_rate as nat,
            );
        }
        let offset_per_channel: usize = pts_offset / num_channels;
        let delay_ms: u64 = offset_per_channel as u64 * 1000 / self.sample_rate as u64;
        let pts_ms: i64 = base_pts_ms + delay_ms as i64;

        let mut chunk: Vec<i16> = Vec::with_capacity(chunk_samples);
        assert(values(before.take(0)) =~= chunk@);
        assert(before.skip(0) =~= before);
        while chunk.len() < chunk_samples
            invariant
                self.sample_rate == old(self).sample_rate,
                self.channels == old(self).channels,
                self.wf(),
                chunk_samples <= before.len(),
                chunk@.len() <= chunk_samples,
                chunk@ == values(before.take(chunk@.len() as int)),
                self.pending() == before.skip(chunk@.len() as int),
            decreases chunk_samples - chunk@.len(),
        {
            let ghost done = chunk@.len() as int;
            let ghost segments = self.segments@;
            assert(flatten(segments).len() > 0);
            assert(segments.len() > 0);
            let mut front = match self.segments.pop_front() {
                Some(front) => front,
                None => {
                    return None;
                },
            };
            let ghost rest = self.segments@;
            assert(rest =~= segments.skip(1));
            assert(front == segments[0]);
            let available: usize = front.samples.len() - front.offset;
            let remaining: usize = chunk_samples - chunk.len();
            let take: usize = if remaining < available {
                remaining
            } else {
                available
            };
            let end: usize = front.offset + take;
            let ghost start = front;
            chunk.extend_from_slice(&front.samples.as_slice()[front.offset..end]);
            front.offset = end;
            proof {
                assert(flatten(segments) == start.pending() + flatten(rest));
                assert(chunk@ =~= values(before.take(done + take))) by {
                    assert forall|i: int| done <= i < done + take implies #[trigger] chunk@[i]
                        == before[i].value by {
                        assert(before[i] == before.skip(done)[i - done]);
                        assert(before.skip(done)[i - done] == start.pending()[i - done]);
                    }
                }
            }
            self.pending_samples = self.pending_samples - take;
            if front.offset < front.samples.len() {
                self.segments.push_front(front);
                proof {
                    assert(self.segments@.skip(1) =~= rest);
                    assert(front.pending() =~= start.pending().skip(take as int));
                    assert(flatten(self.segments@) == front.pending() + flatten(rest));
                    assert(front.pending() + flatten(rest) =~= (start.pending() + flatten(
                        rest,
                    )).skip(take as int));
                    assert(before.skip(done).skip(take as int) =~= before.skip(done + take));
                }
            } else {
                proof {
                    assert(start.pending().len() == take);
                    assert(flatten(rest) =~= (start.pending() + flatten(rest)).skip(take as int));
                    assert(before.skip(done).skip(take as int) =~= before.skip(done + take));
                }
            }
            assert forall|i: int| 0 <= i < self.segments@.len() implies (
            #[trigger] self.segments@[i]).wf(self.channels as nat, self.sample_rate as nat) by {
                if self.segments@.len() == rest.len() {
                    assert(self.segments@[i] == segments[i + 1]);
                } else if i > 0 {
                    assert(self.segments@[i] == rest[i - 1]);
                    assert(rest[i - 1] == segments[i]);
                }
            }
        }
        assert(chunk@ + values(self.pending()) =~= values(before));
        Some(AudioChunk { pts_ms, samples: chunk })
    }
}

proof fn lemma_delay_fits(pts_ms: i64, index: nat, count: nat, channels: nat, sample_rate: nat)
    requires
        channels > 0,
        sample_rate > 0,
        index <= count,
        frame_time_fits(pts_ms, count, channels, sample_rate),
    ensures
        index / channels * 1000 <= u64::MAX,
        pts_ms + sample_delay_ms(index, channels, sample_rate) <= i64::MAX,
        sample_delay_ms(index, channels, sample_rate) <= i64::MAX,
{
    vstd::arithmetic::div_mod::lemma_div_is_ordered(index as int, count as int, channels as int);
    let a = index / channels * 1000;
    let b = count / channels * 1000;
    vstd::arithmetic::div_mod::lemma_div_is_ordered(a as int, b as int, sample_rate as int);
}

/// A sample is two bytes, the low one first, in two's complement.
pub proof fn samples_are_two_bytes(samples: Seq<i16>, i: int)
    requires
        0 <= i < samples.len(),
    ensures
        sample_bytes(samples).len() == 2 * samples.len(),
        samples[i] >= 0 ==> sample_bytes(samples)[2 * i] + 256 * sample_bytes(samples)[2 * i + 1]
            == samples[i],
        samples[i] < 0 ==> sample_bytes(samples)[2 * i] + 256 * sample_bytes(samples)[2 * i + 1]
            == samples[i] + 0x1_0000,
{
    assert((2 * i) % 2 == 0 && (2 * i) / 2 == i);
    assert((2 * i + 1) % 2 == 1 && (2 * i + 1) / 2 == i);
}

/// Two bytes are a sample, the low one first, in two's complement. A byte that is
/// left over is none.
pub proof fn two_bytes_are_a_sample(bytes: Seq<u8>, i: int)
    requires
        0 <= i < bytes.len() / 2,
    ensures
        samples_of(bytes).len() == bytes.len() / 2,
        bytes[2 * i + 1] < 0x80 ==> samples_of(bytes)[i] == bytes[2 * i] + 256 * bytes[2 * i + 1],
        bytes[2 * i + 1] >= 0x80 ==> samples_of(bytes)[i] + 0x1_0000 == bytes[2 * i] + 256
            * bytes[2 * i + 1],
{
}

/// A chunk has whole sets of one sample for each channel, as many as fit in ten
/// milliseconds; where a hundredth of the rate is whole, it is ten milliseconds
/// long.
pub proof fn chunk_is_ten_milliseconds(sample_rate: u32, channels: u32)
    requires
        channels > 0,
    ensures
        chunk_len(sample_rate, channels) * 100 <= sample_rate * channels < (chunk_len(
            sample_rate,
            channels,
        ) + channels) * 100,
        sample_rate % 100 == 0 ==> chunk_len(sample_rate, channels) * 100 == sample_rate * channels,
        chunk_len(sample_rate, channels) as int % channels as int == 0,
{
    let q = sample_rate as int / 100;
    let c = channels as int;
    assert(100 * q <= sample_rate < 100 * q + 100);
    assert((q * c) * 100 <= sample_rate * c < (q * c + c) * 100) by (nonlinear_arith)
        requires
            100 * q <= sample_rate < 100 * q + 100,
            c > 0,
    ;
    if sample_rate % 100 == 0 {
        assert((q * c) * 100 == sample_rate * c) by (nonlinear_arith)
            requires
                100 * q == sample_rate,
        ;
    }
    vstd::arithmetic::div_mod::lemma_mod_multiples_basic(q, c);
}

/// The time of a sample in its frame is that which the samples of its channel
/// before it take, cut to whole milliseconds.
pub proof fn delay_follows_the_samples(index: nat, before: nat, channels: nat, sample_rate: nat)
    requires
        sample_rate > 0,
        before * channels <= index < (before + 1) * channels,
    ensures
        sample_delay_ms(index, channels, sample_rate) * sample_rate <= before * 1000 < (
        sample_delay_ms(index, channels, sample_rate) + 1) * sample_rate,
{
    assert(channels > 0) by (nonlinear_arith)
        requires
            before * channels < (before + 1) * channels,
    ;
    assert(index as int / channels as int == before) by {
        let r = index - before * channels;
        assert(0 <= r < channels) by (nonlinear_arith)
            requires
                r == index - before * channels,
                before * channels <= index < (before + 1) * channels,
        ;
        vstd::arithmetic::div_mod::lemma_fundamental_div_mod_converse(
            index as int,
            channels as int,
            before as int,
            r,
        );
    }
    let a = (before * 1000) as int;
    let d = sample_rate as int;
    let q = a / d;
    vstd::arithmetic::div_mod::lemma_fundamental_div_mod(a, d);
    assert(q * d <= a < (q + 1) * d) by (nonlinear_arith)
        requires
            a == d * q + a % d,
            0 <= a % d < d,
    ;
}

/// Chunks of one frame come ten milliseconds apart, where a hundredth of the rate
/// is whole.
pub proof fn chunks_come_every_ten_milliseconds(
    first: PendingSample,
    next: PendingSample,
    sample_rate: u32,
    channels: u32,
)
    requires
        sample_rate > 0,
        channels > 0,
        sample_rate % 100 == 0,
        next.pts_ms == first.pts_ms,
        next.index * 100 == first.index * 100 + sample_rate * channels,
    ensures
        chunk_time_ms(next, channels as nat, sample_rate as nat) == chunk_time_ms(
            first,
            channels as nat,
            sample_rate as nat,
        ) + 10,
{
    let c = channels as int;
    let d = sample_rate as int;
    let q = d / 100;
    assert(d == 100 * q);
    let k = first.index as int / c;
    assert(next.index == first.index + q * c) by (nonlinear_arith)
        requires
            next.index * 100 == first.index * 100 + d * c,
            d == 100 * q,
    ;
    vstd::arithmetic::div_mod::lemma_div_multiples_vanish_fancy(k, first.index as int % c, c);
    vstd::arithmetic::div_mod::lemma_fundamental_div_mod(first.index as int, c);
    let r = first.index as int % c;
    assert(next.index == (k + q) * c + r) by (nonlinear_arith)
        requires
            next.index == first.index + q * c,
            first.index == c * k + r,
    ;
    vstd::arithmetic::div_mod::lemma_fundamental_div_mod_converse(
        next.index as int,
        c,
        k + q,
        r,
    );
    assert((k + q) * 1000 == k * 1000 + 10 * d) by (nonlinear_arith)
        requires
            d == 100 * q,
    ;
    vstd::arithmetic::div_mod::lemma_hoist_over_denominator(k * 1000, 10, d as nat);
}

/// The first sample of a frame has the frame's time.
pub proof fn frame_starts_at_its_time(first: PendingSample, channels: nat, sample_rate: nat)
    requires
        first.index == 0,
        channels > 0,
        sample_rate > 0,
    ensures
        chunk_time_ms(first, channels, sample_rate) == first.pts_ms,
{
    assert(0int / channels as int == 0) by (nonlinear_arith)
        requires
            channels > 0,
    ;
    assert(0int / sample_rate as int == 0) by (nonlinear_arith)
        requires
            sample_rate > 0,
    ;
}

/// The samples of a frame wait in its order, with its time and their place.
pub proof fn frame_keeps_its_order(samples: Seq<i16>, pts_ms: i64, i: int)
    requires
        0 <= i < samples.len(),
    ensures
        frame_samples(samples, pts_ms).len() == samples.len(),
        frame_samples(samples, pts_ms)[i].value == samples[i],
        frame_samples(samples, pts_ms)[i].pts_ms == pts_ms,
        frame_samples(samples, pts_ms)[i].index == i,
        values(frame_samples(samples, pts_ms)) == samples,
{
    assert(values(frame_samples(samples, pts_ms)) =~= samples);
}

/// There is audio exactly where a second of it has a sample.
pub proof fn audio_has_samples(sample_rate: u32, channels: u32)
    ensures
        is_audio(sample_rate, channels) <==> sample_rate * channels > 0,
{
    if is_audio(sample_rate, channels) {
        assert(sample_rate * channels > 0) by (nonlinear_arith)
            requires
                sample_rate > 0,
                channels > 0,
        ;
    } else {
        assert(sample_rate * channels == 0) by (nonlinear_arith)
            requires
                sample_rate == 0 || channels == 0,
        ;
    }
}

/// The times of the samples of ordinary frames fit.
pub proof fn ordinary_frames_fit(pts_ms: i64, count: nat, channels: nat, sample_rate: nat)
    requires
        0 <= pts_ms <= 0x1000_0000_0000_0000,
        count <= 0x1_0000_0000,
        channels > 0,
        sample_rate > 0,
    ensures
        frame_time_fits(pts_ms, count, channels, sample_rate),
{
    let k = (count / channels) as int;
    assert(0 <= k <= count) by (nonlinear_arith)
        requires
            k == count as int / channels as int,
            channels >= 1,
            count >= 0,
    ;
    let a = k * 1000;
    let d = sample_rate as int;
    assert(0 <= a / d <= a) by (nonlinear_arith)
        requires
            a >= 0,
            d >= 1,
    ;
}

} // verus!
