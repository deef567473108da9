//! WHEP (WebRTC-HTTP Egress Protocol): what a client does with the frames
//! that it receives.

use crate::audio;
use crate::audio::encode_samples;
use crate::connection::TransportState;
use crate::i420;
use crate::i420::{are_planes_countable, pack_i420};
use crate::mkv_writer;
use crate::mkv_writer::{MkvConfig, MkvWriter, AUDIO_TRACK_NUMBER, VIDEO_TRACK_NUMBER};
use crate::num;
use crate::num::{div_toward_zero, to_signed};
use crate::sink::ByteSink;
use vstd::prelude::*;

verus! {

/// The sample rate that received audio is written with.
pub const OUTPUT_SAMPLE_RATE: u32 = 48000;

/// The channel count that received audio is written with.
pub const OUTPUT_CHANNELS: u32 = 2;

/// Context for frame counting, statistics, and MKV output. The sink is kept
/// until the first video frame, which fixes the picture size, opens the
/// output.
pub struct CallbackContext<W: ByteSink> {
    pub video_frame_count: u64,
    pub audio_frame_count: u64,
    pub sink: Option<W>,
    pub mkv_writer: Option<MkvWriter<W>>,
    pub mkv_writer_initialized: bool,
    // Metadata storage (set on first frame)
    pub video_width: u64,
    pub video_height: u64,
    pub audio_sample_rate: u64,
    pub audio_channels: u64,
    // Timestamp tracking
    pub first_video_timestamp_us: i64,
    // Audio sample counter for precise timing
    pub audio_total_samples: u64,
    pub last_video_timestamp_ms: i64,
    pub last_audio_timestamp_ms: i64,
}

/// A received video frame: its planes as they lie in memory.
pub struct ReceivedVideo<'a> {
    pub width: u32,
    pub height: u32,
    pub y_stride: u32,
    pub u_stride: u32,
    pub v_stride: u32,
    pub y_data: &'a [u8],
    pub u_data: &'a [u8],
    pub v_data: &'a [u8],
    pub timestamp_us: i64,
}

impl<'a> ReceivedVideo<'a> {
    /// The frame without padding.
    pub open spec fn packed(&self) -> Seq<u8> {
        i420::fitting_i420(
            self.width,
            self.height,
            self.y_stride,
            self.u_stride,
            self.v_stride,
            self.y_data@,
            self.u_data@,
            self.v_data@,
        )
    }
}

/// A received audio frame.
pub struct ReceivedAudio<'a> {
    pub sample_rate: u32,
    pub num_channels: u32,
    pub samples_per_channel: u32,
    pub data: &'a [i16],
}

/// What became of a video frame.
#[derive(Debug)]
pub struct VideoReport<E> {
    /// The number of the frame, from one.
    pub count: u64,
    pub timestamp_ms: i64,
    /// Why the output could not be opened, where this frame was to open it.
    pub open_error: Option<E>,
}

/// What became of an audio frame.
#[derive(Debug)]
pub struct AudioReport {
    /// The number of the frame, from one.
    pub count: u64,
    pub timestamp_ms: i64,
}

/// The configuration of the output for a picture size.
pub open spec fn output_config(width: u32, height: u32) -> MkvConfig {
    MkvConfig {
        video_width: width,
        video_height: height,
        audio_sample_rate: OUTPUT_SAMPLE_RATE,
        audio_channels: OUTPUT_CHANNELS,
    }
}

impl<W: ByteSink> CallbackContext<W> {
    /// Until the first video frame there is a sink and no writer; from then
    /// on there is no sink, and a writer if the output could be opened.
    pub open spec fn wf(&self) -> bool {
        &&& self.sink is Some <==> self.video_frame_count == 0
        &&& self.video_frame_count == 0 ==> self.mkv_writer is None
        &&& self.mkv_writer_initialized <==> self.mkv_writer is Some
    }

    /// Whether every write goes through.
    pub open spec fn reliable(&self) -> bool {
        &&& self.sink matches Some(sink) ==> sink.reliable()
        &&& self.mkv_writer matches Some(writer) ==> writer.writer.reliable()
    }

    /// What has been written once the output is open for a picture size.
    pub open spec fn opened_output(&self, width: u32, height: u32) -> Seq<u8> {
        match self.sink {
            Some(sink) => sink.written() + mkv_writer::header_bytes(output_config(width, height)),
            None => self.mkv_writer->0.writer.written(),
        }
    }

    /// The start of the Cluster that the output is in.
    pub open spec fn cluster(&self) -> Option<i64> {
        match self.mkv_writer {
            Some(writer) => writer.cluster_start_time,
            None => None,
        }
    }

    /// The timestamp that relative timestamps of video count from.
    pub open spec fn video_base_us(&self, timestamp_us: i64) -> i64 {
        if self.video_frame_count == 0 {
            timestamp_us
        } else {
            self.first_video_timestamp_us
        }
    }

    /// The time of a video frame in milliseconds since the first.
    pub open spec fn video_time_ms(&self, timestamp_us: i64) -> int {
        num::quotient(timestamp_us - self.video_base_us(timestamp_us), 1000)
    }

    /// The time of the next audio frame, by the samples before it.
    pub open spec fn audio_time_ms(&self, sample_rate: u32) -> int {
        num::quotient(num::as_signed(self.audio_total_samples) * 1000, sample_rate as int)
    }

    /// The picture size, once a video frame has come.
    pub open spec fn size_behind(&self, frame: &ReceivedVideo) -> (u64, u64) {
        if self.video_frame_count == 0 {
            (frame.width as u64, frame.height as u64)
        } else {
            (self.video_width, self.video_height)
        }
    }

    /// The sample rate and the number of channels, once an audio frame has come.
    pub open spec fn format_behind(&self, frame: &ReceivedAudio) -> (u64, u64) {
        if self.audio_frame_count == 0 {
            (frame.sample_rate as u64, frame.num_channels as u64)
        } else {
            (self.audio_sample_rate, self.audio_channels)
        }
    }

    /// What a video frame adds to the output.
    pub open spec fn video_written(&self, frame: &ReceivedVideo) -> Seq<u8> {
        mkv_writer::frame_bytes(
            self.cluster(),
            VIDEO_TRACK_NUMBER,
            self.video_time_ms(frame.timestamp_us) as i64,
            true,
            frame.packed(),
        )
    }

    /// What an audio frame adds to the output.
    pub open spec fn audio_written(&self, frame: &ReceivedAudio) -> Seq<u8> {
        mkv_writer::frame_bytes(
            self.cluster(),
            AUDIO_TRACK_NUMBER,
            self.audio_time_ms(frame.sample_rate) as i64,
            true,
            audio::sample_bytes(frame.data@),
        )
    }

    /// The samples of each channel that came, once an audio frame has.
    pub open spec fn samples_behind(&self, frame: &ReceivedAudio) -> u64 {
        ((self.audio_total_samples + frame.samples_per_channel) % 0x1_0000_0000_0000_0000) as u64
    }

    /// The numbers that are logged every few seconds.
    pub open spec fn stats(&self, last_video_count: u64, last_audio_count: u64) -> FrameStats {
        FrameStats {
            video_count: self.video_frame_count,
            audio_count: self.audio_frame_count,
            video_delta: increase(self.video_frame_count, last_video_count) as u64,
            audio_delta: increase(self.audio_frame_count, last_audio_count) as u64,
            last_video_ts: self.last_video_timestamp_ms,
            last_audio_ts: self.last_audio_timestamp_ms,
            av_diff: known_difference(
                self.last_video_timestamp_ms,
                self.last_audio_timestamp_ms,
            ) as i64,
        }
    }

    /// No frame yet; output goes to `sink`.
    pub fn new(sink: W) -> (r: Self)
        ensures
            r.wf(),
            r.sink == Some(sink),
            r.mkv_writer is None,
            r.video_frame_count == 0,
            r.audio_frame_count == 0,
            r.video_width == 0,
            r.video_height == 0,
            r.audio_sample_rate == 0,
            r.audio_channels == 0,
            r.first_video_timestamp_us == -1,
            r.audio_total_samples == 0,
            r.last_video_timestamp_ms == -1,
            r.last_audio_timestamp_ms == -1,
    {
        Self {
            video_frame_count: 0,
            audio_frame_count: 0,
            sink: Some(sink),
            mkv_writer: None,
            mkv_writer_initialized: false,
            video_width: 0,
            video_height: 0,
            audio_sample_rate: 0,
            audio_channels: 0,
            first_video_timestamp_us: -1,
            audio_total_samples: 0,
            last_video_timestamp_ms: -1,
            last_audio_timestamp_ms: -1,
        }
    }

    /// Whether a video frame can be handled: each number that goes into its
    /// place and its time fits.
    pub open spec fn takes_video(&self, frame: &ReceivedVideo) -> bool {
        &&& self.video_frame_count < u64::MAX
        &&& i420::planes_countable(
            frame.width,
            frame.height,
            frame.y_stride,
            frame.u_stride,
            frame.v_stride,
        )
        &&& num::fits_i64(frame.timestamp_us - self.video_base_us(frame.timestamp_us))
        &&& mkv_writer::offset_fits(
            self.cluster(),
            self.video_time_ms(frame.timestamp_us) as i64,
        )
    }

    /// Whether an audio frame can be handled: it is dropped, or has a sample
    /// rate and each number that goes into its place and its time fits.
    pub open spec fn takes_audio(&self, frame: &ReceivedAudio) -> bool {
        self.mkv_writer_initialized ==> {
            &&& self.audio_frame_count < u64::MAX
            &&& frame.sample_rate > 0
            &&& num::fits_i64(num::as_signed(self.audio_total_samples) * 1000)
            &&& mkv_writer::offset_fits(
                self.cluster(),
                self.audio_time_ms(frame.sample_rate) as i64,
            )
        }
    }

    /// Whether a time can be counted from the start of the Cluster that the
    /// output is in.
    fn is_offset_countable(&self, timestamp_ms: i64) -> (r: bool)
        ensures
            r == mkv_writer::offset_fits(self.cluster(), timestamp_ms),
    {
        match &self.mkv_writer {
            Some(writer) => match writer.cluster_start_time {
                Some(start) => timestamp_ms.checked_sub(start).is_some(),
                None => true,
            },
            None => true,
        }
    }

    /// Whether a video frame can be handled.
    pub fn can_take_video(&self, frame: &ReceivedVideo) -> (r: bool)
        ensures
            r == self.takes_video(frame),
    {
        if self.video_frame_count == u64::MAX || !are_planes_countable(
            frame.width,
            frame.height,
            frame.y_stride,
            frame.u_stride,
            frame.v_stride,
        ) {
            return false;
        }
        let base = if self.video_frame_count == 0 {
            frame.timestamp_us
        } else {
            self.first_video_timestamp_us
        };
        match frame.timestamp_us.checked_sub(base) {
            Some(elapsed_us) => self.is_offset_countable(div_toward_zero(elapsed_us, 1000)),
            None => false,
        }
    }

    /// Whether an audio frame can be handled.
    pub fn can_take_audio(&self, frame: &ReceivedAudio) -> (r: bool)
        ensures
            r == self.takes_audio(frame),
    {
        if !self.mkv_writer_initialized {
            return true;
        }
        if self.audio_frame_count == u64::MAX || frame.sample_rate == 0 {
            return false;
        }
        match to_signed(self.audio_total_samples).checked_mul(1000) {
            Some(sample_ms) => self.is_offset_countable(
                div_toward_zero(sample_ms, frame.sample_rate),
            ),
            None => false,
        }
    }

    /// Handle a video frame: the first one opens the output, each one is
    /// packed and written as a keyframe, at its time since the first. Without
    /// an output, frames are counted and nothing is written. An error is that
    /// of a write.
    pub fn handle_video_frame(&mut self, frame: &ReceivedVideo) -> (r: Result<
        VideoReport<W::Error>,
        W::Error,
    >)
        requires
            old(self).wf(),
            old(self).takes_video(frame),
        ensures
            final(self).wf(),
            final(self).video_frame_count == old(self).video_frame_count + 1,
            final(self).first_video_timestamp_us == old(self).video_base_us(frame.timestamp_us),
            final(self).last_video_timestamp_ms == old(self).video_time_ms(frame.timestamp_us),
            old(self).video_frame_count == 0 ==> final(self).video_width == frame.width && final(
                self).video_height == frame.height,
            old(self).video_frame_count > 0 ==> final(self).video_width == old(self).video_width
                && final(self).video_height == old(self).video_height,
            (final(self).video_width, final(self).video_height) == old(self).size_behind(frame),
            final(self).audio_frame_count == old(self).audio_frame_count,
            final(self).audio_total_samples == old(self).audio_total_samples,
            final(self).audio_sample_rate == old(self).audio_sample_rate,
            final(self).audio_channels == old(self).audio_channels,
            final(self).last_audio_timestamp_ms == old(self).last_audio_timestamp_ms,
            // The output is opened by the first frame or not at all.
            old(self).video_frame_count > 0 ==> (final(self).mkv_writer is Some
                <==> old(self).mkv_writer is Some),
            r is Err ==> final(self).mkv_writer is Some && mkv_writer::broke_off(
                old(self).opened_output(frame.width, frame.height),
                old(self).cluster(),
                VIDEO_TRACK_NUMBER,
                old(self).video_time_ms(frame.timestamp_us) as i64,
                true,
                frame.packed(),
                final(self).mkv_writer->0.writer.written(),
                final(self).cluster(),
            ),
            final(self).mkv_writer matches Some(writer) ==> {
                &&& writer.header_written == (old(self).video_frame_count == 0 || old(
                    self).mkv_writer->0.header_written)
                &&& writer.config == (if old(self).video_frame_count == 0 {
                    output_config(frame.width, frame.height)
                } else {
                    old(self).mkv_writer->0.config
                })
            },
            r matches Ok(report) ==> {
                &&& report.count == final(self).video_frame_count
                &&& report.timestamp_ms == final(self).last_video_timestamp_ms
                &&& report.open_error is Some ==> old(self).video_frame_count == 0
                &&& old(self).video_frame_count == 0 ==> (report.open_error is None <==> final(
                    self).mkv_writer is Some)
            },
            r is Ok && final(self).mkv_writer is Some ==> {
                &&& final(self).mkv_writer->0.writer.written() == old(self).opened_output(
                    frame.width,
                    frame.height,
                ) + mkv_writer::frame_bytes(
                    old(self).cluster(),
                    VIDEO_TRACK_NUMBER,
                    old(self).video_time_ms(frame.timestamp_us) as i64,
                    true,
                    frame.packed(),
                )
                &&& final(self).mkv_writer->0.writer.written() == old(self).opened_output(
                    frame.width,
                    frame.height,
                ) + old(self).video_written(frame)
                &&& final(self).cluster() == Some(
                    mkv_writer::cluster_of(
                        old(self).cluster(),
                        old(self).video_time_ms(frame.timestamp_us) as i64,
                    ),
                )
                &&& final(self).mkv_writer->0.writer.flushed()
            },
            old(self).reliable() ==> {
                &&& r is Ok
                &&& r->Ok_0.open_error is None
                &&& final(self).reliable()
            },
    {
        self.video_frame_count = self.video_frame_count + 1;
        let count = self.video_frame_count;
        let mut open_error: Option<W::Error> = None;
        if count == 1 {
            self.video_width = frame.width as u64;
            self.video_height = frame.height as u64;
            self.first_video_timestamp_us = frame.timestamp_us;
            let config = MkvConfig {
                video_width: frame.width,
                video_height: frame.height,
                audio_sample_rate: OUTPUT_SAMPLE_RATE,
                audio_channels: OUTPUT_CHANNELS,
            };
            if let Some(sink) = self.sink.take() {
                match MkvWriter::new(sink, config) {
                    Ok(writer) => {
                        self.mkv_writer = Some(writer);
                        self.mkv_writer_initialized = true;
                    },
                    Err(e) => {
                        open_error = Some(e);
                    },
                }
            }
        }
        let frame_data = pack_i420(
            frame.width,
            frame.height,
            frame.y_stride,
            frame.u_stride,
            frame.v_stride,
            frame.y_data,
            frame.u_data,
            frame.v_data,
        );
        let elapsed_us: i64 = frame.timestamp_us - self.first_video_timestamp_us;
        let timestamp_ms = div_toward_zero(elapsed_us, 1000);
        self.last_video_timestamp_ms = timestamp_ms;
        if let Some(writer) = &mut self.mkv_writer {
            writer.write_video_frame(frame_data.as_slice(), timestamp_ms, true)?;
        }
        Ok(VideoReport { count, timestamp_ms, open_error })
    }

    /// Handle an audio frame: it is written as S16LE at the time that the
    /// samples before it take. A frame that comes before the output is open
    /// is dropped, and `None` says so. An error is that of a write.
    pub fn handle_audio_frame(&mut self, frame: &ReceivedAudio) -> (r: Result<
        Option<AudioReport>,
        W::Error,
    >)
        requires
            old(self).wf(),
            old(self).takes_audio(frame),
        ensures
            final(self).wf(),
            !old(self).mkv_writer_initialized ==> r == Ok::<Option<AudioReport>, W::Error>(None)
                && *final(self) == *old(self),
            old(self).mkv_writer_initialized ==> {
                &&& final(self).mkv_writer_initialized
                &&& final(self).audio_frame_count == old(self).audio_frame_count + 1
                &&& final(self).audio_total_samples as int == (old(self).audio_total_samples
                    + frame.samples_per_channel) % 0x1_0000_0000_0000_0000
                &&& final(self).audio_total_samples == old(self).samples_behind(frame)
                &&& final(self).last_audio_timestamp_ms == old(self).audio_time_ms(
                    frame.sample_rate,
                )
                &&& old(self).audio_frame_count == 0 ==> final(self).audio_sample_rate
                    == frame.sample_rate && final(self).audio_channels == frame.num_channels
                &&& old(self).audio_frame_count > 0 ==> final(self).audio_sample_rate == old(
                    self).audio_sample_rate && final(self).audio_channels == old(
                    self).audio_channels
                &&& (final(self).audio_sample_rate, final(self).audio_channels) == old(
                    self).format_behind(frame)
                &&& r is Ok ==> {
                    &&& r->Ok_0 == Some(
                        AudioReport {
                            count: final(self).audio_frame_count,
                            timestamp_ms: final(self).last_audio_timestamp_ms,
                        },
                    )
                    &&& final(self).mkv_writer->0.writer.written() == old(
                        self).mkv_writer->0.writer.written() + mkv_writer::frame_bytes(
                        old(self).cluster(),
                        AUDIO_TRACK_NUMBER,
                        old(self).audio_time_ms(frame.sample_rate) as i64,
                        true,
                        audio::sample_bytes(frame.data@),
                    )
                    &&& final(self).mkv_writer->0.writer.written() == old(
                        self).mkv_writer->0.writer.written() + old(self).audio_written(frame)
                    &&& final(self).cluster() == Some(
                        mkv_writer::cluster_of(
                            old(self).cluster(),
                            old(self).audio_time_ms(frame.sample_rate) as i64,
                        ),
                    )
                    &&& final(self).mkv_writer->0.writer.flushed()
                }
                &&& r is Err ==> mkv_writer::broke_off(
                    old(self).mkv_writer->0.writer.written(),
                    old(self).cluster(),
                    AUDIO_TRACK_NUMBER,
                    old(self).audio_time_ms(frame.sample_rate) as i64,
                    true,
                    audio::sample_bytes(frame.data@),
                    final(self).mkv_writer->0.writer.written(),
                    final(self).cluster(),
                )
                &&& final(self).mkv_writer->0.same_setup(&old(self).mkv_writer->0)
                &&& old(self).reliable() ==> r is Ok
            },
            final(self).video_frame_count == old(self).video_frame_count,
            final(self).video_width == old(self).video_width,
            final(self).video_height == old(self).video_height,
            final(self).first_video_timestamp_us == old(self).first_video_timestamp_us,
            final(self).last_video_timestamp_ms == old(self).last_video_timestamp_ms,
            old(self).reliable() ==> final(self).reliable(),
    {
        if !self.mkv_writer_initialized {
            return Ok(None);
        }
        self.audio_frame_count = self.audio_frame_count + 1;
        let count = self.audio_frame_count;
        if count == 1 {
            self.audio_sample_rate = frame.sample_rate as u64;
            self.audio_channels = frame.num_channels as u64;
        }
        let prev_samples = self.audio_total_samples;
        self.audio_total_samples = prev_samples.wrapping_add(frame.samples_per_channel as u64);
        let sample_ms: i64 = to_signed(prev_samples) * 1000;
        let timestamp_ms = div_toward_zero(sample_ms, frame.sample_rate);
        self.last_audio_timestamp_ms = timestamp_ms;
        let byte_data = encode_samples(frame.data);
        if let Some(writer) = &mut self.mkv_writer {
            writer.write_audio_frame(byte_data.as_slice(), timestamp_ms)?;
        }
        Ok(Some(AudioReport { count, timestamp_ms }))
    }

    /// Flush the output, if it is open.
    pub fn flush(&mut self) -> (r: Result<(), W::Error>)
        requires
            old(self).wf(),
        ensures
            final(self).wf(),
            old(self).mkv_writer is None ==> r is Ok && *final(self) == *old(self),
            old(self).mkv_writer matches Some(writer) ==> {
                &&& final(self).mkv_writer matches Some(flushed) && flushed.same_but_output(&writer)
                &&& final(self).mkv_writer->0.writer.written() == writer.writer.written()
                &&& r is Ok ==> final(self).mkv_writer->0.writer.flushed()
            },
            final(self).video_frame_count == old(self).video_frame_count,
            final(self).audio_frame_count == old(self).audio_frame_count,
            final(self).audio_total_samples == old(self).audio_total_samples,
            final(self).first_video_timestamp_us == old(self).first_video_timestamp_us,
            final(self).video_width == old(self).video_width,
            final(self).video_height == old(self).video_height,
            final(self).audio_sample_rate == old(self).audio_sample_rate,
            final(self).audio_channels == old(self).audio_channels,
            final(self).last_video_timestamp_ms == old(self).last_video_timestamp_ms,
            final(self).last_audio_timestamp_ms == old(self).last_audio_timestamp_ms,
            old(self).reliable() ==> r is Ok && final(self).reliable(),
    {
        if let Some(writer) = &mut self.mkv_writer {
            writer.flush()?;
        }
        Ok(())
    }

    /// The numbers that are logged every few seconds.
    pub fn frame_stats(&self, last_video_count: u64, last_audio_count: u64) -> (r: FrameStats)
        ensures
            r.video_count == self.video_frame_count,
            r.audio_count == self.audio_frame_count,
            r.video_delta == increase(self.video_frame_count, last_video_count),
            r.audio_delta == increase(self.audio_frame_count, last_audio_count),
            r.last_video_ts == self.last_video_timestamp_ms,
            r.last_audio_ts == self.last_audio_timestamp_ms,
            r.av_diff == known_difference(
                self.last_video_timestamp_ms,
                self.last_audio_timestamp_ms,
            ),
            r == self.stats(last_video_count, last_audio_count),
    {
        FrameStats {
            video_count: self.video_frame_count,
            audio_count: self.audio_frame_count,
            video_delta: self.video_frame_count.saturating_sub(last_video_count),
            audio_delta: self.audio_frame_count.saturating_sub(last_audio_count),
            last_video_ts: self.last_video_timestamp_ms,
            last_audio_ts: self.last_audio_timestamp_ms,
            av_diff: difference_if_known(
                self.last_video_timestamp_ms,
                self.last_audio_timestamp_ms,
            ),
        }
    }
}

/// By how much a count has grown; a count that has not grown gives zero.
pub open spec fn increase(count: u64, last: u64) -> nat {
    if count > last {
        (count - last) as nat
    } else {
        0
    }
}

/// `a - b` where both are known, that is not negative; -1 where one is not.
pub open spec fn known_difference(a: i64, b: i64) -> int {
    if a >= 0 && b >= 0 {
        a - b
    } else {
        -1
    }
}

/// `a - b` where both are known, that is not negative; -1 where one is not.
pub fn difference_if_known(a: i64, b: i64) -> (r: i64)
    ensures
        r == known_difference(a, b),
{
    if a >= 0 && b >= 0 {
        a - b
    } else {
        -1
    }
}

/// The numbers that are logged every few seconds.
#[derive(Debug, Clone, Copy, PartialEq, Eq, Structural)]
pub struct FrameStats {
    pub video_count: u64,
    pub audio_count: u64,
    pub video_delta: u64,
    pub audio_delta: u64,
    pub last_video_ts: i64,
    pub last_audio_ts: i64,
    pub av_diff: i64,
}

/// How often the connection is looked at while frames are received: every
/// five seconds.
pub const CHECK_INTERVAL_NS: u64 = 5_000_000_000;

/// How long video may stall, once it has begun: five seconds.
pub const VIDEO_STALL_TIMEOUT_NS: u64 = 5_000_000_000;

/// Why receiving stopped.
#[derive(Debug, Clone, Copy, PartialEq, Eq, Structural)]
pub enum StopReason {
    /// Video and audio are over.
    StreamsEnded,
    /// The connection failed or was closed.
    ConnectionLost,
    /// A video frame could not be written.
    VideoWriteFailed,
    /// An audio frame could not be written.
    AudioWriteFailed,
    /// No video frame came for too long.
    VideoStalled,
}

/// Something that happened while frames were received.
#[derive(Debug, Clone, Copy, PartialEq, Eq, Structural)]
pub enum ReceiveEvent {
    /// A video frame came; whether it was handled without error.
    VideoFrame(bool),
    VideoEnded,
    /// An audio frame came; whether it was handled without error.
    AudioFrame(bool),
    AudioEnded,
    /// The time for the next video frame ran out.
    VideoTimeout,
}

/// What to do before the next event is awaited.
#[derive(Debug, Clone, Copy, PartialEq, Eq, Structural)]
pub enum ReceiveCheck {
    /// Wait for the next event.
    Wait,
    /// The periodic check is over: log, restart its timer, then wait.
    Checked,
    Stop(StopReason),
}

/// Which streams are still open.
#[derive(Debug, Clone, Copy, PartialEq, Eq, Structural)]
pub struct ReceiveLoop {
    pub video_open: bool,
    pub audio_open: bool,
}

/// Why an event ends receiving, if it does.
pub open spec fn reason_to_stop(event: ReceiveEvent) -> Option<StopReason> {
    match event {
        ReceiveEvent::VideoFrame(ok) => if ok {
            None
        } else {
            Some(StopReason::VideoWriteFailed)
        },
        ReceiveEvent::AudioFrame(ok) => if ok {
            None
        } else {
            Some(StopReason::AudioWriteFailed)
        },
        ReceiveEvent::VideoTimeout => Some(StopReason::VideoStalled),
        _ => None,
    }
}

/// How long to wait for the next video frame, by the time since the last one.
pub open spec fn stall_wait(since_last_video_ns: Option<u64>) -> Option<u64> {
    match since_last_video_ns {
        None => None,
        Some(elapsed) => Some(
            if elapsed >= VIDEO_STALL_TIMEOUT_NS {
                0
            } else {
                (VIDEO_STALL_TIMEOUT_NS - elapsed) as u64
            },
        ),
    }
}

impl ReceiveLoop {
    /// What to do before the next event is awaited.
    pub open spec fn checked(
        self,
        since_check_ns: u64,
        state: Option<TransportState>,
    ) -> ReceiveCheck {
        if !self.video_open && !self.audio_open {
            ReceiveCheck::Stop(StopReason::StreamsEnded)
        } else if since_check_ns < CHECK_INTERVAL_NS {
            ReceiveCheck::Wait
        } else if state matches Some(s) && s.lost() {
            ReceiveCheck::Stop(StopReason::ConnectionLost)
        } else {
            ReceiveCheck::Checked
        }
    }

    /// Which streams are still open behind an event.
    pub open spec fn behind(self, event: ReceiveEvent) -> ReceiveLoop {
        ReceiveLoop {
            video_open: self.video_open && event !is VideoEnded,
            audio_open: self.audio_open && event !is AudioEnded,
        }
    }

    /// What to do before the next event is awaited, by the time since the
    /// last periodic check and, for that check, the state of the connection.
    pub fn check(&self, since_check_ns: u64, state: Option<TransportState>) -> (r: ReceiveCheck)
        ensures
            r == (if !self.video_open && !self.audio_open {
                ReceiveCheck::Stop(StopReason::StreamsEnded)
            } else if since_check_ns < CHECK_INTERVAL_NS {
                ReceiveCheck::Wait
            } else if state matches Some(s) && (s is Failed || s is Closed) {
                ReceiveCheck::Stop(StopReason::ConnectionLost)
            } else {
                ReceiveCheck::Checked
            }),
            r == self.checked(since_check_ns, state),
    {
        if !self.video_open && !self.audio_open {
            return ReceiveCheck::Stop(StopReason::StreamsEnded);
        }
        if since_check_ns < CHECK_INTERVAL_NS {
            return ReceiveCheck::Wait;
        }
        if let Some(s) = state {
            if s.is_lost() {
                return ReceiveCheck::Stop(StopReason::ConnectionLost);
            }
        }
        ReceiveCheck::Checked
    }

    /// Take an event: a stream that ended is closed, and what could not be
    /// written or did not come is a reason to stop.
    pub fn take_event(&mut self, event: ReceiveEvent) -> (r: Option<StopReason>)
        ensures
            r == (match event {
                ReceiveEvent::VideoFrame(ok) => if ok {
                    None
                } else {
                    Some(StopReason::VideoWriteFailed)
                },
                ReceiveEvent::AudioFrame(ok) => if ok {
                    None
                } else {
                    Some(StopReason::AudioWriteFailed)
                },
                ReceiveEvent::VideoTimeout => Some(StopReason::VideoStalled),
                _ => None,
            }),
            final(self).video_open == (old(self).video_open && event !is VideoEnded),
            final(self).audio_open == (old(self).audio_open && event !is AudioEnded),
            r == reason_to_stop(event),
            *final(self) == old(self).behind(event),
    {
        match event {
            ReceiveEvent::VideoFrame(ok) => {
                if !ok {
                    return Some(StopReason::VideoWriteFailed);
                }
            },
            ReceiveEvent::AudioFrame(ok) => {
                if !ok {
                    return Some(StopReason::AudioWriteFailed);
                }
            },
            ReceiveEvent::VideoEnded => {
                self.video_open = false;
            },
            ReceiveEvent::AudioEnded => {
                self.audio_open = false;
            },
            ReceiveEvent::VideoTimeout => {
                return Some(StopReason::VideoStalled);
            },
        }
        None
    }
}

/// How long to wait for the next video frame, by the time since the last one:
/// for ever before the first, and not at all once the timeout is over.
pub fn stall_wait_ns(since_last_video_ns: Option<u64>) -> (r: Option<u64>)
    ensures
        r == (match since_last_video_ns {
            None => None,
            Some(elapsed) => Some(
                if elapsed >= VIDEO_STALL_TIMEOUT_NS {
                    0
                } else {
                    (VIDEO_STALL_TIMEOUT_NS - elapsed) as u64
                },
            ),
        }),
        r == stall_wait(since_last_video_ns),
{
    match since_last_video_ns {
        None => None,
        Some(elapsed) => {
            if elapsed >= VIDEO_STALL_TIMEOUT_NS {
                Some(0)
            } else {
                Some(VIDEO_STALL_TIMEOUT_NS - elapsed)
            }
        },
    }
}

/// The time of an audio frame is that which the samples before it take, cut to
/// whole milliseconds.
pub proof fn audio_time_follows_the_samples<W: ByteSink>(
    context: CallbackContext<W>,
    sample_rate: u32,
)
    requires
        sample_rate > 0,
        context.audio_total_samples <= i64::MAX,
    ensures
        context.audio_time_ms(sample_rate) * sample_rate <= context.audio_total_samples * 1000 < (
        context.audio_time_ms(sample_rate) + 1) * sample_rate,
        context.audio_time_ms(sample_rate) >= 0,
{
    num::quotient_is_cut_toward_zero(context.audio_total_samples * 1000, sample_rate as int);
    assert(context.audio_time_ms(sample_rate) >= 0) by {
        num::quotient_keeps_order(0, context.audio_total_samples * 1000, sample_rate as int);
        num::quotient_is_cut_toward_zero(0, sample_rate as int);
    }
}

/// Audio times do not go back while samples add up at one rate, and a second of
/// samples comes a second later.
pub proof fn audio_time_goes_on<W: ByteSink>(
    earlier: CallbackContext<W>,
    later: CallbackContext<W>,
    seconds: nat,
    sample_rate: u32,
)
    requires
        sample_rate > 0,
        earlier.audio_total_samples <= later.audio_total_samples <= i64::MAX,
    ensures
        earlier.audio_time_ms(sample_rate) <= later.audio_time_ms(sample_rate),
        later.audio_total_samples == earlier.audio_total_samples + seconds * sample_rate
            ==> later.audio_time_ms(sample_rate) == earlier.audio_time_ms(sample_rate) + seconds
            * 1000,
{
    let a = earlier.audio_total_samples * 1000;
    let b = later.audio_total_samples * 1000;
    num::quotient_keeps_order(a, b, sample_rate as int);
    if later.audio_total_samples == earlier.audio_total_samples + seconds * sample_rate {
        assert((earlier.audio_total_samples + seconds * sample_rate) * 1000
            == earlier.audio_total_samples * 1000 + (seconds * 1000) * sample_rate)
            by (nonlinear_arith);
        num::quotient_counts_divisors(a, (seconds * 1000) as int, sample_rate as int);
    }
}

/// The time of a video frame is that since the first one, cut to whole
/// milliseconds; the first one comes at zero.
pub proof fn video_time_counts_from_the_first_frame<W: ByteSink>(
    context: CallbackContext<W>,
    timestamp_us: i64,
)
    ensures
        context.video_frame_count == 0 ==> context.video_time_ms(timestamp_us) == 0
            && context.video_base_us(timestamp_us) == timestamp_us,
        context.video_frame_count > 0 ==> {
            let elapsed_us = timestamp_us - context.first_video_timestamp_us;
            let time_ms = context.video_time_ms(timestamp_us);
            &&& context.video_base_us(timestamp_us) == context.first_video_timestamp_us
            &&& elapsed_us >= 0 ==> time_ms * 1000 <= elapsed_us < (time_ms + 1) * 1000
            &&& elapsed_us <= 0 ==> (time_ms - 1) * 1000 < elapsed_us <= time_ms * 1000
        },
{
    num::quotient_is_cut_toward_zero(timestamp_us - context.video_base_us(timestamp_us), 1000);
    num::quotient_is_cut_toward_zero(0, 1000);
}

/// A video frame a whole number of milliseconds behind another is timed so much
/// later.
pub proof fn video_time_goes_on<W: ByteSink>(
    context: CallbackContext<W>,
    timestamp_us: i64,
    later_us: i64,
    ms: nat,
)
    requires
        context.video_frame_count > 0,
        timestamp_us <= later_us,
    ensures
        context.video_time_ms(timestamp_us) <= context.video_time_ms(later_us),
        timestamp_us >= context.first_video_timestamp_us && later_us == timestamp_us + ms * 1000
            ==> context.video_time_ms(later_us) == context.video_time_ms(timestamp_us) + ms,
{
    let first = context.first_video_timestamp_us;
    num::quotient_keeps_order(timestamp_us - first, later_us - first, 1000);
    if timestamp_us >= first && later_us == timestamp_us + ms * 1000 {
        num::quotient_counts_divisors(timestamp_us - first, ms as int, 1000);
    }
}

/// The output is opened for the size of the first frame, with the sound that
/// received audio is resampled to: 48 kHz, stereo.
pub proof fn output_is_opened_for_the_first_frame<W: ByteSink>(
    context: CallbackContext<W>,
    width: u32,
    height: u32,
)
    requires
        context.wf(),
    ensures
        context.video_frame_count == 0 ==> context.opened_output(width, height)
            == context.sink->0.written() + mkv_writer::header_bytes(
            (MkvConfig {
                video_width: width,
                video_height: height,
                audio_sample_rate: 48000,
                audio_channels: 2,
            }),
        ) && context.cluster() is None,
        context.video_frame_count > 0 && context.mkv_writer is Some ==> context.opened_output(
            width,
            height,
        ) == context.mkv_writer->0.writer.written() && context.cluster()
            == context.mkv_writer->0.cluster_start_time,
{
}

/// Frames of ordinary size and time are taken.
pub proof fn ordinary_frames_are_taken<W: ByteSink>(
    context: CallbackContext<W>,
    video: ReceivedVideo,
    audio: ReceivedAudio,
)
    requires
        context.video_frame_count < u64::MAX,
        context.audio_frame_count < u64::MAX,
        video.width <= 0x4000,
        video.height <= 0x4000,
        video.y_stride <= 0x8000,
        video.u_stride <= 0x8000,
        video.v_stride <= 0x8000,
        0 <= context.first_video_timestamp_us <= 0x1000_0000_0000_0000,
        0 <= video.timestamp_us <= 0x1000_0000_0000_0000,
        audio.sample_rate > 0,
        context.audio_total_samples <= 0x10_0000_0000_0000,
        context.cluster() matches Some(start) ==> 0 <= start <= 0x1000_0000_0000_0000,
    ensures
        context.takes_video(&video),
        context.takes_audio(&audio),
{
    lemma_small_planes(video.width, video.height, video.y_stride, video.u_stride, video.v_stride);
    video_time_counts_from_the_first_frame(context, video.timestamp_us);
    audio_time_follows_the_samples(context, audio.sample_rate);
    let t = context.audio_time_ms(audio.sample_rate);
    assert(t <= context.audio_total_samples * 1000) by (nonlinear_arith)
        requires
            t * audio.sample_rate <= context.audio_total_samples * 1000,
            audio.sample_rate >= 1,
            t >= 0,
    ;
}

proof fn lemma_small_planes(width: u32, height: u32, y_stride: u32, u_stride: u32, v_stride: u32)
    requires
        width <= 0x4000,
        height <= 0x4000,
        y_stride <= 0x8000,
        u_stride <= 0x8000,
        v_stride <= 0x8000,
    ensures
        i420::planes_countable(width, height, y_stride, u_stride, v_stride),
{
    let (cw, ch) = (i420::chroma(width) as int, i420::chroma(height) as int);
    let (w, h) = (width as int, height as int);
    assert(w * h <= 0x4000 * 0x4000) by (nonlinear_arith)
        requires
            0 <= w <= 0x4000,
            0 <= h <= 0x4000,
    ;
    assert(0 <= cw * ch <= 0x2000 * 0x2000) by (nonlinear_arith)
        requires
            0 <= cw <= 0x2000,
            0 <= ch <= 0x2000,
    ;
    lemma_small_extent(y_stride as nat, width as nat, height as nat);
    lemma_small_extent(u_stride as nat, i420::chroma(width), i420::chroma(height));
    lemma_small_extent(v_stride as nat, i420::chroma(width), i420::chroma(height));
}

proof fn lemma_small_extent(stride: nat, width: nat, rows: nat)
    requires
        stride <= 0x8000,
        width <= 0x4000,
        rows <= 0x4000,
    ensures
        i420::plane_extent(stride, width, rows) <= usize::MAX,
{
    if rows > 0 {
        assert((rows - 1) * stride <= 0x4000 * 0x8000) by (nonlinear_arith)
            requires
                0 <= rows - 1 <= 0x4000,
                0 <= stride <= 0x8000,
        ;
    }
}

/// A count is what it was and what it has grown by; one that went back has not
/// grown.
pub proof fn increase_adds_up(count: u64, last: u64)
    ensures
        last <= count ==> last + increase(count, last) == count,
        last >= count ==> increase(count, last) == 0,
{
}

/// The difference of two times adds up where both are known; where one is not,
/// there is none.
pub proof fn difference_adds_up(a: i64, b: i64)
    ensures
        a >= 0 && b >= 0 ==> b + known_difference(a, b) == a,
        a < 0 || b < 0 ==> known_difference(a, b) == -1,
{
}

/// Receiving goes on while a stream is open and the connection is not seen to be
/// lost; it is looked at every five seconds and not before. It stops for the
/// streams only when both are over.
pub proof fn receiving_stops_with_a_reason(
    streams: ReceiveLoop,
    since_check_ns: u64,
    state: Option<TransportState>,
)
    ensures
        streams.checked(since_check_ns, state) == ReceiveCheck::Stop(StopReason::StreamsEnded)
            <==> !streams.video_open && !streams.audio_open,
        streams.video_open || streams.audio_open ==> (streams.checked(since_check_ns, state) is Wait
            <==> since_check_ns < 5 * 1_000_000_000),
        (streams.video_open || streams.audio_open) && since_check_ns >= 5 * 1_000_000_000 ==> (
        streams.checked(since_check_ns, state) == ReceiveCheck::Stop(StopReason::ConnectionLost)
            <==> state is Some && (state->0 is Failed || state->0 is Closed)),
        streams.checked(since_check_ns, state) matches ReceiveCheck::Stop(reason) ==> reason
            is StreamsEnded || reason is ConnectionLost,
{
}

/// A stream is closed by its own end and by nothing else, and stays closed. An
/// event is a reason to stop exactly where a frame was not written or did not
/// come.
pub proof fn events_close_their_streams(streams: ReceiveLoop, event: ReceiveEvent)
    ensures
        streams.behind(event).video_open <==> streams.video_open && event
            != ReceiveEvent::VideoEnded,
        streams.behind(event).audio_open <==> streams.audio_open && event
            != ReceiveEvent::AudioEnded,
        reason_to_stop(event) is Some <==> event == ReceiveEvent::VideoFrame(false) || event
            == ReceiveEvent::AudioFrame(false) || event == ReceiveEvent::VideoTimeout,
        reason_to_stop(ReceiveEvent::VideoFrame(false)) == Some(StopReason::VideoWriteFailed),
        reason_to_stop(ReceiveEvent::AudioFrame(false)) == Some(StopReason::AudioWriteFailed),
        reason_to_stop(ReceiveEvent::VideoTimeout) == Some(StopReason::VideoStalled),
{
}

/// Video may stall for five seconds from its last frame, however often the wait
/// begins anew; before the first frame there is no limit.
pub proof fn stall_is_counted_from_the_last_frame(since_last_video_ns: u64)
    ensures
        stall_wait(None) is None,
        stall_wait(Some(since_last_video_ns)) matches Some(wait) && {
            &&& since_last_video_ns <= 5 * 1_000_000_000 ==> since_last_video_ns + wait == 5
                * 1_000_000_000
            &&& since_last_video_ns >= 5 * 1_000_000_000 ==> wait == 0
        },
{
}

/// Samples add up, modulo 64 bits.
pub proof fn samples_add_up<W: ByteSink>(context: CallbackContext<W>, frame: ReceivedAudio)
    ensures
        context.samples_behind(&frame) == context.audio_total_samples + frame.samples_per_channel
            || context.samples_behind(&frame) + 0x1_0000_0000_0000_0000
            == context.audio_total_samples + frame.samples_per_channel,
{
}

/// The last bytes of the output behind an audio frame are a block of track 2,
/// marked as a keyframe, and in it the samples, two bytes each, the low one
/// first.
pub proof fn audio_is_written_by_samples<W: ByteSink>(
    context: CallbackContext<W>,
    frame: ReceivedAudio,
    i: int,
)
    requires
        0 <= i < frame.data@.len(),
    ensures
        ({
            let written = context.audio_written(&frame);
            let start = written.len() - 2 * frame.data@.len() - 4;
            let low = written[start + 4 + 2 * i];
            let high = written[start + 5 + 2 * i];
            &&& start > 0
            &&& written[start] == 0x82
            &&& written[start + 3] == 0x80
            &&& frame.data@[i] >= 0 ==> low + 256 * high == frame.data@[i]
            &&& frame.data@[i] < 0 ==> low + 256 * high == frame.data@[i] + 0x1_0000
        }),
{
    let time = context.audio_time_ms(frame.sample_rate) as i64;
    let offset = (time - mkv_writer::cluster_of(context.cluster(), time)) as i16;
    let data = audio::sample_bytes(frame.data@);
    audio::samples_are_two_bytes(frame.data@, i);
    lemma_block_ends_output(context.cluster(), AUDIO_TRACK_NUMBER, time, offset, data, 4 + 2 * i);
    lemma_block_ends_output(context.cluster(), AUDIO_TRACK_NUMBER, time, offset, data, 5 + 2 * i);
}

/// The last bytes of the output behind a video frame are a block of track 1,
/// marked as a keyframe, and in it the frame without padding.
pub proof fn video_is_written_packed<W: ByteSink>(
    context: CallbackContext<W>,
    frame: ReceivedVideo,
    i: int,
)
    requires
        0 <= i < frame.packed().len(),
    ensures
        ({
            let written = context.video_written(&frame);
            let start = written.len() - frame.packed().len() - 4;
            &&& start > 0
            &&& written[start] == 0x81
            &&& written[start + 3] == 0x80
            &&& written[start + 4 + i] == frame.packed()[i]
        }),
{
    let time = context.video_time_ms(frame.timestamp_us) as i64;
    let offset = (time - mkv_writer::cluster_of(context.cluster(), time)) as i16;
    lemma_block_ends_output(
        context.cluster(),
        VIDEO_TRACK_NUMBER,
        time,
        offset,
        frame.packed(),
        4 + i,
    );
}

proof fn lemma_block_ends_output(
    start: Option<i64>,
    track_number: u8,
    time: i64,
    offset: i16,
    data: Seq<u8>,
    i: int,
)
    requires
        track_number < 0x80,
        offset == (time - mkv_writer::cluster_of(start, time)) as i16,
        4 <= i < 4 + data.len(),
    ensures
        ({
            let written = mkv_writer::frame_bytes(start, track_number, time, true, data);
            let from = written.len() - data.len() - 4;
            &&& from > 0
            &&& written[from] == 0x80 + track_number
            &&& written[from + 3] == 0x80
            &&& written[from + i] == data[i - 4]
        }),
{
    mkv_writer::block_has_four_bytes_of_header(track_number, offset, true, data);
    let written = mkv_writer::frame_bytes(start, track_number, time, true, data);
    let block = mkv_writer::block_bytes(track_number, offset, true, data);
    let from = written.len() - block.len();
    assert(written.skip(from) =~= block);
    assert(written[from] == block[0]);
    assert(written[from + 3] == block[3]);
    assert(written[from + i] == block.skip(4)[i - 4]);
}

/// The logged counts and times are those of the frames, and their growth and
/// their difference add up.
pub proof fn stats_compare_frames<W: ByteSink>(
    context: CallbackContext<W>,
    videos: u64,
    audios: u64,
)
    ensures
        ({
            let stats = context.stats(videos, audios);
            &&& stats.video_count == context.video_frame_count
            &&& stats.audio_count == context.audio_frame_count
            &&& stats.last_video_ts == context.last_video_timestamp_ms
            &&& stats.last_audio_ts == context.last_audio_timestamp_ms
            &&& videos <= stats.video_count ==> videos + stats.video_delta == stats.video_count
            &&& videos > stats.video_count ==> stats.video_delta == 0
            &&& audios <= stats.audio_count ==> audios + stats.audio_delta == stats.audio_count
            &&& audios > stats.audio_count ==> stats.audio_delta == 0
            &&& stats.last_video_ts >= 0 && stats.last_audio_ts >= 0 ==> stats.last_audio_ts
                + stats.av_diff == stats.last_video_ts
            &&& stats.last_video_ts < 0 || stats.last_audio_ts < 0 ==> stats.av_diff == -1
        }),
{
}

/// The picture size is that of the first video frame, and the format of the sound
/// that of the first audio frame; later frames do not change them.
pub proof fn formats_are_those_of_the_first_frames<W: ByteSink>(
    context: CallbackContext<W>,
    video: ReceivedVideo,
    audio: ReceivedAudio,
)
    ensures
        context.video_frame_count == 0 ==> context.size_behind(&video).0 == video.width
            && context.size_behind(&video).1 == video.height,
        context.video_frame_count > 0 ==> context.size_behind(&video).0 == context.video_width
            && context.size_behind(&video).1 == context.video_height,
        context.audio_frame_count == 0 ==> context.format_behind(&audio).0 == audio.sample_rate
            && context.format_behind(&audio).1 == audio.num_channels,
        context.audio_frame_count > 0 ==> context.format_behind(&audio).0
            == context.audio_sample_rate && context.format_behind(&audio).1
            == context.audio_channels,
{
}

} // verus!
