//! WHIP (WebRTC-HTTP Ingestion Protocol): how a client paces, feeds and
//! accounts for the frames that it sends.

use crate::connection::TransportState;
use crate::i420;
use crate::i420::{packed_len_of, unpack_i420};
use crate::num;
use crate::num::to_signed;
use crate::whep;
use crate::whep::difference_if_known;
use vstd::prelude::*;

verus! {

/// How much audio the audio source may queue.
pub const AUDIO_QUEUE_SIZE_MS: u32 = 100;

/// Audio that is later than this is dropped.
pub const LATE_DROP_THRESHOLD_MS: i64 = 150;

/// How often frame statistics are logged: every five seconds.
pub const STATS_INTERVAL_MS: u64 = 5000;

/// What stands for a timestamp or a wait that is not known.
pub const UNKNOWN_MS: i64 = -1;

/// Context for frame counting, statistics and pacing.
#[derive(Debug, Clone, Copy, PartialEq, Eq, Structural)]
pub struct CallbackContext {
    pub video_frame_count: u64,
    pub audio_frame_count: u64,
    // Timestamp tracking
    pub pacing_pts_start_ms: Option<i64>,
    pub first_video_timestamp_ms: i64,
    pub first_audio_timestamp_ms: i64,
    pub first_audio_mkv_timestamp_ms: i64,
    pub audio_total_samples: u64,
    pub last_video_timestamp_ms: i64,
    pub last_audio_timestamp_ms: i64,
    pub last_audio_mkv_timestamp_ms: i64,
    pub last_video_drift_ms: i64,
    pub last_audio_drift_ms: i64,
    pub last_audio_capture_wait_ms: i64,
    pub audio_capture_wait_total_ms: u64,
    pub audio_capture_wait_count: u64,
    pub audio_capture_wait_max_ms: i64,
    pub video_queue_backlog: i64,
    pub audio_queue_backlog: i64,
    pub video_queue_backlog_max: i64,
    pub audio_queue_backlog_max: i64,
}

/// A context before the first frame.
pub open spec fn fresh_context() -> CallbackContext {
    CallbackContext {
        video_frame_count: 0,
        audio_frame_count: 0,
        pacing_pts_start_ms: None,
        first_video_timestamp_ms: UNKNOWN_MS,
        first_audio_timestamp_ms: UNKNOWN_MS,
        first_audio_mkv_timestamp_ms: UNKNOWN_MS,
        audio_total_samples: 0,
        last_video_timestamp_ms: UNKNOWN_MS,
        last_audio_timestamp_ms: UNKNOWN_MS,
        last_audio_mkv_timestamp_ms: UNKNOWN_MS,
        last_video_drift_ms: UNKNOWN_MS,
        last_audio_drift_ms: UNKNOWN_MS,
        last_audio_capture_wait_ms: UNKNOWN_MS,
        audio_capture_wait_total_ms: 0,
        audio_capture_wait_count: 0,
        audio_capture_wait_max_ms: UNKNOWN_MS,
        video_queue_backlog: 0,
        audio_queue_backlog: 0,
        video_queue_backlog_max: 0,
        audio_queue_backlog_max: 0,
    }
}

/// The larger of two numbers.
pub open spec fn larger(a: i64, b: i64) -> i64 {
    if a > b {
        a
    } else {
        b
    }
}

/// `a + b` in 64 bits, without the carry.
pub open spec fn wrapped_sum(a: u64, b: nat) -> u64 {
    ((a + b) % 0x1_0000_0000_0000_0000) as u64
}

/// How late a frame at `timestamp_ms` is, `elapsed_ms` after the frame at
/// `pts_start_ms` was due. A frame that is early has a negative drift.
pub open spec fn drift(timestamp_ms: i64, pts_start_ms: i64, elapsed_ms: i64) -> int {
    elapsed_ms - (timestamp_ms - pts_start_ms)
}

/// Whether the drift of a frame, and how long it has to wait, can be counted.
pub open spec fn drift_fits(timestamp_ms: i64, pts_start_ms: i64, elapsed_ms: i64) -> bool {
    &&& num::fits_i64(timestamp_ms - pts_start_ms)
    &&& num::fits_i64(drift(timestamp_ms, pts_start_ms, elapsed_ms))
    &&& num::fits_i64(-drift(timestamp_ms, pts_start_ms, elapsed_ms))
}

/// How long to wait before a frame that drifts by `drift` is due.
pub open spec fn wait_for(drift: int) -> int {
    if drift < 0 {
        -drift
    } else {
        0
    }
}

/// What to do with a chunk of audio at `chunk_pts_ms`, `elapsed_ms` after the
/// frame at `pts_start_ms` was due.
pub open spec fn audio_pacing(chunk_pts_ms: i64, pts_start_ms: i64, elapsed_ms: i64) -> AudioPacing {
    let d = drift(chunk_pts_ms, pts_start_ms, elapsed_ms);
    if d > LATE_DROP_THRESHOLD_MS {
        AudioPacing::Drop
    } else {
        AudioPacing::Feed(wait_for(d) as u64)
    }
}

/// Whether the drift of a frame, and how long it has to wait, can be counted.
pub fn can_pace(timestamp_ms: i64, pts_start_ms: i64, elapsed_ms: i64) -> (r: bool)
    ensures
        r == drift_fits(timestamp_ms, pts_start_ms, elapsed_ms),
{
    match timestamp_ms.checked_sub(pts_start_ms) {
        Some(target_ms) => elapsed_ms.checked_sub(target_ms).is_some() && target_ms.checked_sub(
            elapsed_ms,
        ).is_some(),
        None => false,
    }
}

/// What to do with a chunk of audio.
#[derive(Debug, Clone, Copy, PartialEq, Eq, Structural)]
pub enum AudioPacing {
    /// It is too late.
    Drop,
    /// Feed it after so many milliseconds.
    Feed(u64),
}

/// How a video frame is handed to the video source.
#[derive(Debug, Clone, Copy, PartialEq, Eq, Structural)]
pub struct VideoFeed {
    /// The number of the frame, from one.
    pub count: u64,
    /// Microseconds since the first frame.
    pub timestamp_us: i64,
}

/// The numbers that are logged every few seconds.
#[derive(Debug, Clone, Copy, PartialEq, Eq, Structural)]
pub struct FrameStats {
    pub video_delta: u64,
    pub audio_delta: u64,
    pub av_diff: i64,
    pub audio_clock_ms: i64,
    pub mkv_audio_elapsed_ms: i64,
    pub audio_mkv_diff_ms: i64,
    pub audio_capture_wait_avg_ms: i64,
}

impl CallbackContext {
    /// The context once a video frame was queued.
    pub open spec fn video_queued(self) -> CallbackContext {
        let backlog = (self.video_queue_backlog + 1) as i64;
        CallbackContext {
            video_queue_backlog: backlog,
            video_queue_backlog_max: larger(backlog, self.video_queue_backlog_max),
            ..self
        }
    }

    /// The context once an audio frame was queued.
    pub open spec fn audio_queued(self) -> CallbackContext {
        let backlog = (self.audio_queue_backlog + 1) as i64;
        CallbackContext {
            audio_queue_backlog: backlog,
            audio_queue_backlog_max: larger(backlog, self.audio_queue_backlog_max),
            ..self
        }
    }

    /// The context once a video frame was taken from its queue.
    pub open spec fn video_taken(self) -> CallbackContext {
        CallbackContext { video_queue_backlog: self.video_queue_backlog.wrapping_sub(1), ..self }
    }

    /// The context once an audio frame was taken from its queue.
    pub open spec fn audio_taken(self) -> CallbackContext {
        CallbackContext { audio_queue_backlog: self.audio_queue_backlog.wrapping_sub(1), ..self }
    }

    /// The timestamp that pacing counts from, once a frame at `pts_ms` is paced.
    pub open spec fn pacing_base(self, pts_ms: i64) -> i64 {
        match self.pacing_pts_start_ms {
            Some(start) => start,
            None => pts_ms,
        }
    }

    /// The context once a chunk of audio was paced.
    pub open spec fn audio_paced(
        self,
        chunk_pts_ms: i64,
        pts_start_ms: i64,
        elapsed_ms: i64,
    ) -> CallbackContext {
        CallbackContext {
            first_audio_mkv_timestamp_ms: if self.first_audio_mkv_timestamp_ms < 0 {
                chunk_pts_ms
            } else {
                self.first_audio_mkv_timestamp_ms
            },
            last_audio_mkv_timestamp_ms: chunk_pts_ms,
            last_audio_drift_ms: drift(chunk_pts_ms, pts_start_ms, elapsed_ms) as i64,
            ..self
        }
    }

    /// Microseconds from the first video frame to one at `timestamp_ms`.
    pub open spec fn video_time_us(self, timestamp_ms: i64) -> int {
        (timestamp_ms - self.video_base_ms(timestamp_ms)) * 1000
    }

    /// The context once a video frame at `timestamp_ms` was fed.
    pub open spec fn video_fed(self, timestamp_ms: i64) -> CallbackContext {
        CallbackContext {
            video_frame_count: (self.video_frame_count + 1) as u64,
            first_video_timestamp_ms: self.video_base_ms(timestamp_ms),
            last_video_timestamp_ms: timestamp_ms,
            ..self
        }
    }

    /// The context once an audio frame is about to be fed.
    pub open spec fn audio_begun(
        self,
        samples_per_channel: u32,
        audio_clock_ms: i64,
        mkv_timestamp_ms: i64,
    ) -> CallbackContext {
        CallbackContext {
            audio_frame_count: (self.audio_frame_count + 1) as u64,
            first_audio_timestamp_ms: if self.audio_frame_count == 0 {
                audio_clock_ms
            } else {
                self.first_audio_timestamp_ms
            },
            first_audio_mkv_timestamp_ms: if self.first_audio_mkv_timestamp_ms < 0 {
                mkv_timestamp_ms
            } else {
                self.first_audio_mkv_timestamp_ms
            },
            last_audio_timestamp_ms: audio_clock_ms,
            last_audio_mkv_timestamp_ms: mkv_timestamp_ms,
            audio_total_samples: wrapped_sum(self.audio_total_samples, samples_per_channel as nat),
            ..self
        }
    }

    /// The context once feeding an audio frame took `capture_wait_ms`.
    pub open spec fn audio_ended(self, capture_wait_ms: i64) -> CallbackContext {
        CallbackContext {
            last_audio_capture_wait_ms: capture_wait_ms,
            audio_capture_wait_total_ms: wrapped_sum(
                self.audio_capture_wait_total_ms,
                larger(capture_wait_ms, 0) as nat,
            ),
            audio_capture_wait_count: wrapped_sum(self.audio_capture_wait_count, 1),
            audio_capture_wait_max_ms: larger(capture_wait_ms, self.audio_capture_wait_max_ms),
            ..self
        }
    }

    /// How long feeding an audio frame took on average.
    pub open spec fn mean_wait_ms(self) -> int {
        if self.audio_capture_wait_count > 0 {
            num::as_signed(self.audio_capture_wait_total_ms / self.audio_capture_wait_count)
        } else {
            -1
        }
    }

    /// The numbers that are logged every few seconds.
    pub open spec fn stats(self, last_video_count: u64, last_audio_count: u64) -> FrameStats {
        let audio_clock_ms = whep::known_difference(
            self.last_audio_timestamp_ms,
            self.first_audio_timestamp_ms,
        );
        let mkv_audio_elapsed_ms = whep::known_difference(
            self.last_audio_mkv_timestamp_ms,
            self.first_audio_mkv_timestamp_ms,
        );
        FrameStats {
            video_delta: whep::increase(self.video_frame_count, last_video_count) as u64,
            audio_delta: whep::increase(self.audio_frame_count, last_audio_count) as u64,
            av_diff: whep::known_difference(
                self.last_video_timestamp_ms,
                self.last_audio_timestamp_ms,
            ) as i64,
            audio_clock_ms: audio_clock_ms as i64,
            mkv_audio_elapsed_ms: mkv_audio_elapsed_ms as i64,
            audio_mkv_diff_ms: whep::known_difference(
                mkv_audio_elapsed_ms as i64,
                audio_clock_ms as i64,
            ) as i64,
            audio_capture_wait_avg_ms: self.mean_wait_ms() as i64,
        }
    }

    /// No frame yet.
    pub fn new() -> (r: Self)
        ensures
            r == fresh_context(),
    {
        CallbackContext {
            video_frame_count: 0,
            audio_frame_count: 0,
            pacing_pts_start_ms: None,
            first_video_timestamp_ms: UNKNOWN_MS,
            first_audio_timestamp_ms: UNKNOWN_MS,
            first_audio_mkv_timestamp_ms: UNKNOWN_MS,
            audio_total_samples: 0,
            last_video_timestamp_ms: UNKNOWN_MS,
            last_audio_timestamp_ms: UNKNOWN_MS,
            last_audio_mkv_timestamp_ms: UNKNOWN_MS,
            last_video_drift_ms: UNKNOWN_MS,
            last_audio_drift_ms: UNKNOWN_MS,
            last_audio_capture_wait_ms: UNKNOWN_MS,
            audio_capture_wait_total_ms: 0,
            audio_capture_wait_count: 0,
            audio_capture_wait_max_ms: UNKNOWN_MS,
            video_queue_backlog: 0,
            audio_queue_backlog: 0,
            video_queue_backlog_max: 0,
            audio_queue_backlog_max: 0,
        }
    }

    /// A video frame was queued.
    pub fn enqueue_video(&mut self)
        requires
            old(self).video_queue_backlog < i64::MAX,
        ensures
            *final(self) == (CallbackContext {
                video_queue_backlog: (old(self).video_queue_backlog + 1) as i64,
                video_queue_backlog_max: larger(
                    (old(self).video_queue_backlog + 1) as i64,
                    old(self).video_queue_backlog_max,
                ),
                ..*old(self)
            }),
            *final(self) == old(self).video_queued(),
    {
        self.video_queue_backlog = self.video_queue_backlog + 1;
        if self.video_queue_backlog > self.video_queue_backlog_max {
            self.video_queue_backlog_max = self.video_queue_backlog;
        }
    }

    /// An audio frame was queued.
    pub fn enqueue_audio(&mut self)
        requires
            old(self).audio_queue_backlog < i64::MAX,
        ensures
            *final(self) == (CallbackContext {
                audio_queue_backlog: (old(self).audio_queue_backlog + 1) as i64,
                audio_queue_backlog_max: larger(
                    (old(self).audio_queue_backlog + 1) as i64,
                    old(self).audio_queue_backlog_max,
                ),
                ..*old(self)
            }),
            *final(self) == old(self).audio_queued(),
    {
        self.audio_queue_backlog = self.audio_queue_backlog + 1;
        if self.audio_queue_backlog > self.audio_queue_backlog_max {
            self.audio_queue_backlog_max = self.audio_queue_backlog;
        }
    }

    /// A video frame was taken from its queue.
    pub fn dequeue_video(&mut self)
        ensures
            *final(self) == (CallbackContext {
                video_queue_backlog: old(self).video_queue_backlog.wrapping_sub(1),
                ..*old(self)
            }),
            *final(self) == old(self).video_taken(),
    {
        self.video_queue_backlog = self.video_queue_backlog.wrapping_sub(1);
    }

    /// An audio frame was taken from its queue.
    pub fn dequeue_audio(&mut self)
        ensures
            *final(self) == (CallbackContext {
                audio_queue_backlog: old(self).audio_queue_backlog.wrapping_sub(1),
                ..*old(self)
            }),
            *final(self) == old(self).audio_taken(),
    {
        self.audio_queue_backlog = self.audio_queue_backlog.wrapping_sub(1);
    }

    /// The timestamp that pacing counts from: that of the first frame of any
    /// kind to be paced.
    pub fn ensure_pacing_base(&mut self, pts_ms: i64) -> (r: i64)
        ensures
            r == (match old(self).pacing_pts_start_ms {
                Some(start) => start,
                None => pts_ms,
            }),
            r == old(self).pacing_base(pts_ms),
            *final(self) == (CallbackContext { pacing_pts_start_ms: Some(r), ..*old(self) }),
    {
        match self.pacing_pts_start_ms {
            Some(start) => start,
            None => {
                self.pacing_pts_start_ms = Some(pts_ms);
                pts_ms
            },
        }
    }

    /// How long to wait before a video frame is due, `elapsed_ms` after
    /// pacing began. A video frame is never dropped.
    pub fn pace_video(&mut self, timestamp_ms: i64, pts_start_ms: i64, elapsed_ms: i64) -> (r: u64)
        requires
            drift_fits(timestamp_ms, pts_start_ms, elapsed_ms),
        ensures
            r == wait_for(drift(timestamp_ms, pts_start_ms, elapsed_ms)),
            *final(self) == (CallbackContext {
                last_video_drift_ms: drift(timestamp_ms, pts_start_ms, elapsed_ms) as i64,
                ..*old(self)
            }),
    {
        let target_ms: i64 = timestamp_ms - pts_start_ms;
        let wait_ms: i64 = target_ms - elapsed_ms;
        let drift_ms: i64 = elapsed_ms - target_ms;
        self.last_video_drift_ms = drift_ms;
        if wait_ms > 0 {
            wait_ms as u64
        } else {
            0
        }
    }

    /// What to do with a chunk of audio, `elapsed_ms` after pacing began.
    pub fn pace_audio(&mut self, chunk_pts_ms: i64, pts_start_ms: i64, elapsed_ms: i64) -> (r:
        AudioPacing)
        requires
            drift_fits(chunk_pts_ms, pts_start_ms, elapsed_ms),
        ensures
            r == (if drift(chunk_pts_ms, pts_start_ms, elapsed_ms) > LATE_DROP_THRESHOLD_MS {
                AudioPacing::Drop
            } else {
                AudioPacing::Feed(
                    wait_for(drift(chunk_pts_ms, pts_start_ms, elapsed_ms)) as u64,
                )
            }),
            r == audio_pacing(chunk_pts_ms, pts_start_ms, elapsed_ms),
            *final(self) == old(self).audio_paced(chunk_pts_ms, pts_start_ms, elapsed_ms),
            *final(self) == (CallbackContext {
                first_audio_mkv_timestamp_ms: if old(self).first_audio_mkv_timestamp_ms < 0 {
                    chunk_pts_ms
                } else {
                    old(self).first_audio_mkv_timestamp_ms
                },
                last_audio_mkv_timestamp_ms: chunk_pts_ms,
                last_audio_drift_ms: drift(chunk_pts_ms, pts_start_ms, elapsed_ms) as i64,
                ..*old(self)
            }),
    {
        if self.first_audio_mkv_timestamp_ms < 0 {
            self.first_audio_mkv_timestamp_ms = chunk_pts_ms;
        }
        self.last_audio_mkv_timestamp_ms = chunk_pts_ms;
        let target_rel_ms: i64 = chunk_pts_ms - pts_start_ms;
        let wait_ms: i64 = target_rel_ms - elapsed_ms;
        let drift_ms: i64 = elapsed_ms - target_rel_ms;
        self.last_audio_drift_ms = drift_ms;
        if drift_ms > LATE_DROP_THRESHOLD_MS {
            AudioPacing::Drop
        } else if wait_ms > 0 {
            AudioPacing::Feed(wait_ms as u64)
        } else {
            AudioPacing::Feed(0)
        }
    }

    /// The timestamp that video counts from, once a frame at `timestamp_ms`
    /// is fed.
    pub open spec fn video_base_ms(&self, timestamp_ms: i64) -> i64 {
        if self.video_frame_count == 0 {
            timestamp_ms
        } else {
            self.first_video_timestamp_ms
        }
    }

    /// Whether a video frame can be fed: each number that goes into its planes
    /// and its time fits.
    pub open spec fn feeds_video(
        &self,
        timestamp_ms: i64,
        video_width: u32,
        video_height: u32,
    ) -> bool {
        &&& self.video_frame_count < u64::MAX
        &&& i420::luma_len(video_width, video_height) <= u32::MAX
        &&& video_width < u32::MAX
        &&& video_height < u32::MAX
        &&& i420::packed_len(video_width, video_height) <= usize::MAX
        &&& num::fits_i64(timestamp_ms - self.video_base_ms(timestamp_ms))
        &&& num::fits_i64((timestamp_ms - self.video_base_ms(timestamp_ms)) * 1000)
    }

    /// Whether a video frame can be fed.
    pub fn can_feed_video(&self, timestamp_ms: i64, video_width: u32, video_height: u32) -> (r:
        bool)
        ensures
            r == self.feeds_video(timestamp_ms, video_width, video_height),
    {
        if self.video_frame_count == u64::MAX || video_width.checked_mul(video_height).is_none()
            || video_width == u32::MAX || video_height == u32::MAX || packed_len_of(
            video_width,
            video_height,
        ).is_none() {
            return false;
        }
        let base = if self.video_frame_count == 0 {
            timestamp_ms
        } else {
            self.first_video_timestamp_ms
        };
        match timestamp_ms.checked_sub(base) {
            Some(relative_ms) => relative_ms.checked_mul(1000).is_some(),
            None => false,
        }
    }

    /// Copy a packed I420 frame into the planes of a buffer, and time it from
    /// the first frame. A packed frame that is too short leaves the buffer as
    /// it is.
    pub fn feed_video_frame(
        &mut self,
        data: &[u8],
        timestamp_ms: i64,
        video_width: u32,
        video_height: u32,
        y_plane: &mut [u8],
        u_plane: &mut [u8],
        v_plane: &mut [u8],
    ) -> (r: VideoFeed)
        requires
            old(self).feeds_video(timestamp_ms, video_width, video_height),
        ensures
            r.count == old(self).video_frame_count + 1,
            r.timestamp_us == (timestamp_ms - old(self).video_base_ms(timestamp_ms)) * 1000,
            r.timestamp_us == old(self).video_time_us(timestamp_ms),
            *final(self) == old(self).video_fed(timestamp_ms),
            r.count == final(self).video_frame_count,
            *final(self) == (CallbackContext {
                video_frame_count: r.count,
                first_video_timestamp_ms: old(self).video_base_ms(timestamp_ms),
                last_video_timestamp_ms: timestamp_ms,
                ..*old(self)
            }),
            data@.len() < i420::packed_len(video_width, video_height) ==> {
                &&& final(y_plane)@ == old(y_plane)@
                &&& final(u_plane)@ == old(u_plane)@
                &&& final(v_plane)@ == old(v_plane)@
            },
            data@.len() >= i420::packed_len(video_width, video_height) ==> {
                let y_size = i420::luma_len(video_width, video_height) as int;
                let uv_size = i420::chroma_len(video_width, video_height) as int;
                &&& final(y_plane)@ == i420::overlaid(old(y_plane)@, data@.take(y_size))
                &&& final(u_plane)@ == i420::overlaid(
                    old(u_plane)@,
                    data@.subrange(y_size, y_size + uv_size),
                )
                &&& final(v_plane)@ == i420::overlaid(
                    old(v_plane)@,
                    data@.subrange(y_size + uv_size, y_size + 2 * uv_size),
                )
            },
            (final(y_plane)@, final(u_plane)@, final(v_plane)@) == i420::unpacked(
                data@,
                video_width,
                video_height,
                (old(y_plane)@, old(u_plane)@, old(v_plane)@),
            ),
    {
        self.video_frame_count = self.video_frame_count + 1;
        let count = self.video_frame_count;
        if count == 1 {
            self.first_video_timestamp_ms = timestamp_ms;
        }
        self.last_video_timestamp_ms = timestamp_ms;
        unpack_i420(data, video_width, video_height, y_plane, u_plane, v_plane);
        let relative_ts_ms: i64 = timestamp_ms - self.first_video_timestamp_ms;
        let timestamp_us: i64 = relative_ts_ms * 1000;
        VideoFeed { count, timestamp_us }
    }

    /// Account for an audio frame that is about to be fed; its number, from
    /// one.
    pub fn begin_audio_frame(
        &mut self,
        samples_per_channel: u32,
        audio_clock_ms: i64,
        mkv_timestamp_ms: i64,
    ) -> (r: u64)
        requires
            old(self).audio_frame_count < u64::MAX,
        ensures
            r == old(self).audio_frame_count + 1,
            r == final(self).audio_frame_count,
            *final(self) == old(self).audio_begun(
                samples_per_channel,
                audio_clock_ms,
                mkv_timestamp_ms,
            ),
            *final(self) == (CallbackContext {
                audio_frame_count: r,
                first_audio_timestamp_ms: if old(self).audio_frame_count == 0 {
                    audio_clock_ms
                } else {
                    old(self).first_audio_timestamp_ms
                },
                first_audio_mkv_timestamp_ms: if old(self).first_audio_mkv_timestamp_ms < 0 {
                    mkv_timestamp_ms
                } else {
                    old(self).first_audio_mkv_timestamp_ms
                },
                last_audio_timestamp_ms: audio_clock_ms,
                last_audio_mkv_timestamp_ms: mkv_timestamp_ms,
                audio_total_samples: wrapped_sum(
                    old(self).audio_total_samples,
                    samples_per_channel as nat,
                ),
                ..*old(self)
            }),
    {
        self.audio_frame_count = self.audio_frame_count + 1;
        let count = self.audio_frame_count;
        if count == 1 {
            self.first_audio_timestamp_ms = audio_clock_ms;
        }
        self.last_audio_timestamp_ms = audio_clock_ms;
        self.last_audio_mkv_timestamp_ms = mkv_timestamp_ms;
        if self.first_audio_mkv_timestamp_ms < 0 {
            self.first_audio_mkv_timestamp_ms = mkv_timestamp_ms;
        }
        self.audio_total_samples = self.audio_total_samples.wrapping_add(
            samples_per_channel as u64,
        );
        count
    }

    /// Account for the time that feeding an audio frame took.
    pub fn end_audio_frame(&mut self, capture_wait_ms: i64)
        ensures
            *final(self) == (CallbackContext {
                last_audio_capture_wait_ms: capture_wait_ms,
                audio_capture_wait_total_ms: wrapped_sum(
                    old(self).audio_capture_wait_total_ms,
                    larger(capture_wait_ms, 0) as nat,
                ),
                audio_capture_wait_count: wrapped_sum(old(self).audio_capture_wait_count, 1),
                audio_capture_wait_max_ms: larger(
                    capture_wait_ms,
                    old(self).audio_capture_wait_max_ms,
                ),
                ..*old(self)
            }),
            *final(self) == old(self).audio_ended(capture_wait_ms),
    {
        self.last_audio_capture_wait_ms = capture_wait_ms;
        let waited: u64 = if capture_wait_ms > 0 {
            capture_wait_ms as u64
        } else {
            0
        };
        self.audio_capture_wait_total_ms = self.audio_capture_wait_total_ms.wrapping_add(waited);
        self.audio_capture_wait_count = self.audio_capture_wait_count.wrapping_add(1);
        if capture_wait_ms > self.audio_capture_wait_max_ms {
            self.audio_capture_wait_max_ms = capture_wait_ms;
        }
    }

    /// The numbers that are logged every few seconds.
    pub fn frame_stats(&self, last_video_count: u64, last_audio_count: u64) -> (r: FrameStats)
        ensures
            r.video_delta == whep::increase(self.video_frame_count, last_video_count),
            r.audio_delta == whep::increase(self.audio_frame_count, last_audio_count),
            r.av_diff == whep::known_difference(
                self.last_video_timestamp_ms,
                self.last_audio_timestamp_ms,
            ),
            r.audio_clock_ms == whep::known_difference(
                self.last_audio_timestamp_ms,
                self.first_audio_timestamp_ms,
            ),
            r.mkv_audio_elapsed_ms == whep::known_difference(
                self.last_audio_mkv_timestamp_ms,
                self.first_audio_mkv_timestamp_ms,
            ),
            r.audio_mkv_diff_ms == whep::known_difference(
                r.mkv_audio_elapsed_ms,
                r.audio_clock_ms,
            ),
            r.audio_capture_wait_avg_ms == (if self.audio_capture_wait_count > 0 {
                num::as_signed(
                    self.audio_capture_wait_total_ms / self.audio_capture_wait_count,
                )
            } else {
                -1
            }),
            r == self.stats(last_video_count, last_audio_count),
    {
        let audio_clock_ms = difference_if_known(
            self.last_audio_timestamp_ms,
            self.first_audio_timestamp_ms,
        );
        let mkv_audio_elapsed_ms = difference_if_known(
            self.last_audio_mkv_timestamp_ms,
            self.first_audio_mkv_timestamp_ms,
        );
        let audio_capture_wait_avg_ms: i64 = if self.audio_capture_wait_count > 0 {
            to_signed(self.audio_capture_wait_total_ms / self.audio_capture_wait_count)
        } else {
            -1
        };
        FrameStats {
            video_delta: self.video_frame_count.saturating_sub(last_video_count),
            audio_delta: self.audio_frame_count.saturating_sub(last_audio_count),
            av_diff: difference_if_known(
                self.last_video_timestamp_ms,
                self.last_audio_timestamp_ms,
            ),
            audio_clock_ms,
            mkv_audio_elapsed_ms,
            audio_mkv_diff_ms: difference_if_known(mkv_audio_elapsed_ms, audio_clock_ms),
            audio_capture_wait_avg_ms,
        }
    }
}

/// Something that happened while frames were read and handed to the tasks
/// that send them.
#[derive(Debug)]
pub enum DispatchEvent {
    /// The state of the connection was looked at; `None` where there is none.
    StateSeen(Option<TransportState>),
    /// A video frame was read.
    VideoRead,
    /// An audio frame was read.
    AudioRead,
    /// There is no further frame.
    EndOfStream,
    /// The stream could not be read, for this reason.
    ReadFailed(String),
    /// A video frame was handed to its task; whether the task still takes
    /// frames.
    VideoHanded(bool),
    /// An audio frame was handed to its task; whether the task still takes
    /// frames.
    AudioHanded(bool),
    /// ICE candidates were sent, and the other tasks had their turn.
    IceServed,
}

/// What to do next while frames are read and handed on.
#[derive(Debug)]
pub enum DispatchAction {
    /// Look at the state of the connection.
    SeeState,
    /// Read the next frame.
    ReadFrame,
    /// Hand the frame that was read to the video task.
    HandVideo,
    /// Hand the frame that was read to the audio task.
    HandAudio,
    /// Send ICE candidates, and let the other tasks have their turn.
    ServeIce,
    /// Stop, with this outcome.
    Finish(Result<(), String>),
}

/// Whether `action` is what an event asks for.
pub open spec fn follows(event: DispatchEvent, action: DispatchAction) -> bool {
    match event {
        DispatchEvent::StateSeen(state) => if state matches Some(s) && s.lost() {
            action == DispatchAction::Finish(Ok(()))
        } else {
            action == DispatchAction::ReadFrame
        },
        DispatchEvent::VideoRead => action == DispatchAction::HandVideo,
        DispatchEvent::AudioRead => action == DispatchAction::HandAudio,
        DispatchEvent::EndOfStream => action == DispatchAction::Finish(Ok(())),
        DispatchEvent::ReadFailed(reason) => fails_with(action, reason@),
        DispatchEvent::VideoHanded(taken) => if taken {
            action == DispatchAction::ServeIce
        } else {
            fails_with(action, "Video task terminated unexpectedly"@)
        },
        DispatchEvent::AudioHanded(taken) => if taken {
            action == DispatchAction::ServeIce
        } else {
            fails_with(action, "Audio task terminated unexpectedly"@)
        },
        DispatchEvent::IceServed => action == DispatchAction::SeeState,
    }
}

/// Whether `action` is to stop with this error.
pub open spec fn fails_with(action: DispatchAction, message: Seq<char>) -> bool {
    action matches DispatchAction::Finish(outcome) && outcome matches Err(e) && e@ == message
}

impl CallbackContext {
    /// The context behind an event.
    pub open spec fn behind(self, event: DispatchEvent) -> CallbackContext {
        if event == DispatchEvent::VideoHanded(true) {
            self.video_queued()
        } else if event == DispatchEvent::AudioHanded(true) {
            self.audio_queued()
        } else {
            self
        }
    }

    /// Take an event while frames are read and handed on. A connection that
    /// is lost ends the loop like the end of the stream does, without an
    /// error; a frame that was handed on counts as queued.
    pub fn dispatch(&mut self, event: DispatchEvent) -> (r: DispatchAction)
        requires
            event matches DispatchEvent::VideoHanded(_) ==> old(self).video_queue_backlog
                < i64::MAX,
            event matches DispatchEvent::AudioHanded(_) ==> old(self).audio_queue_backlog
                < i64::MAX,
        ensures
            match event {
                DispatchEvent::StateSeen(state) => if state matches Some(s) && (s is Failed
                    || s is Closed) {
                    r == DispatchAction::Finish(Ok(()))
                } else {
                    r == DispatchAction::ReadFrame
                },
                DispatchEvent::VideoRead => r == DispatchAction::HandVideo,
                DispatchEvent::AudioRead => r == DispatchAction::HandAudio,
                DispatchEvent::EndOfStream => r == DispatchAction::Finish(Ok(())),
                DispatchEvent::ReadFailed(reason) => fails_with(r, reason@),
                DispatchEvent::VideoHanded(taken) => if taken {
                    r == DispatchAction::ServeIce
                } else {
                    fails_with(r, "Video task terminated unexpectedly"@)
                },
                DispatchEvent::AudioHanded(taken) => if taken {
                    r == DispatchAction::ServeIce
                } else {
                    fails_with(r, "Audio task terminated unexpectedly"@)
                },
                DispatchEvent::IceServed => r == DispatchAction::SeeState,
            },
            *final(self) == (if event == DispatchEvent::VideoHanded(true) {
                CallbackContext {
                    video_queue_backlog: (old(self).video_queue_backlog + 1) as i64,
                    video_queue_backlog_max: larger(
                        (old(self).video_queue_backlog + 1) as i64,
                        old(self).video_queue_backlog_max,
                    ),
                    ..*old(self)
                }
            } else if event == DispatchEvent::AudioHanded(true) {
                CallbackContext {
                    audio_queue_backlog: (old(self).audio_queue_backlog + 1) as i64,
                    audio_queue_backlog_max: larger(
                        (old(self).audio_queue_backlog + 1) as i64,
                        old(self).audio_queue_backlog_max,
                    ),
                    ..*old(self)
                }
            } else {
                *old(self)
            }),
            follows(event, r),
            *final(self) == old(self).behind(event),
    {
        match event {
            DispatchEvent::StateSeen(state) => {
                if let Some(s) = state {
                    if s.is_lost() {
                        return DispatchAction::Finish(Ok(()));
                    }
                }
                DispatchAction::ReadFrame
            },
            DispatchEvent::VideoRead => DispatchAction::HandVideo,
            DispatchEvent::AudioRead => DispatchAction::HandAudio,
            DispatchEvent::EndOfStream => DispatchAction::Finish(Ok(())),
            DispatchEvent::ReadFailed(reason) => DispatchAction::Finish(Err(reason)),
            DispatchEvent::VideoHanded(taken) => {
                if !taken {
                    return DispatchAction::Finish(
                        Err("Video task terminated unexpectedly".to_owned()),
                    );
                }
                self.enqueue_video();
                DispatchAction::ServeIce
            },
            DispatchEvent::AudioHanded(taken) => {
                if !taken {
                    return DispatchAction::Finish(
                        Err("Audio task terminated unexpectedly".to_owned()),
                    );
                }
                self.enqueue_audio();
                DispatchAction::ServeIce
            },
            DispatchEvent::IceServed => DispatchAction::SeeState,
        }
    }
}

/// How a task ended.
#[derive(Debug)]
pub enum TaskEnd {
    /// It came to its end.
    Finished,
    /// It ended with this error.
    Failed(String),
    /// It panicked, for this reason.
    Panicked(String),
}

/// The error that sending ends with, if any: that a task panicked comes
/// first, then why the reading ended, then why a task ended, and video comes
/// before audio.
pub open spec fn first_failure(
    dispatch: Result<(), String>,
    video: TaskEnd,
    audio: TaskEnd,
) -> Option<Seq<char>> {
    match (video, audio, dispatch) {
        (TaskEnd::Panicked(reason), _, _) => Some("Video task panicked: "@ + reason@),
        (_, TaskEnd::Panicked(reason), _) => Some("Audio task panicked: "@ + reason@),
        (_, _, Err(e)) => Some(e@),
        (TaskEnd::Failed(e), _, _) => Some(e@),
        (_, TaskEnd::Failed(e), _) => Some(e@),
        _ => None,
    }
}

/// The outcome of sending, once all its parts have ended.
pub fn send_outcome(dispatch: Result<(), String>, video: TaskEnd, audio: TaskEnd) -> (r: Result<
    (),
    String,
>)
    ensures
        match first_failure(dispatch, video, audio) {
            Some(message) => r matches Err(e) && e@ == message,
            None => r is Ok,
        },
{
    if let TaskEnd::Panicked(reason) = &video {
        let mut message = "Video task panicked: ".to_owned();
        message.append(reason.as_str());
        return Err(message);
    }
    if let TaskEnd::Panicked(reason) = &audio {
        let mut message = "Audio task panicked: ".to_owned();
        message.append(reason.as_str());
        return Err(message);
    }
    if let Err(e) = dispatch {
        return Err(e);
    }
    if let TaskEnd::Failed(e) = video {
        return Err(e);
    }
    if let TaskEnd::Failed(e) = audio {
        return Err(e);
    }
    Ok(())
}

/// A frame that is fed waits until it is due and no longer, and audio that is
/// fed is at most `LATE_DROP_THRESHOLD_MS` late: at the time it is fed, a
/// frame's drift is not negative.
pub proof fn fed_when_due(timestamp_ms: i64, pts_start_ms: i64, elapsed_ms: i64)
    requires
        drift_fits(timestamp_ms, pts_start_ms, elapsed_ms),
    ensures
        ({
            let d = drift(timestamp_ms, pts_start_ms, elapsed_ms);
            let fed_after = d + wait_for(d);
            &&& fed_after >= 0
            &&& d <= 0 ==> fed_after == 0
            &&& d > 0 ==> fed_after == d
        }),
{
}

/// A frame that comes `elapsed_ms` after pacing began is late by what that is
/// behind its own time, counted from the first frame's.
pub proof fn drift_is_lateness(timestamp_ms: i64, pts_start_ms: i64, elapsed_ms: i64)
    ensures
        timestamp_ms - pts_start_ms + drift(timestamp_ms, pts_start_ms, elapsed_ms) == elapsed_ms,
{
}

/// A chunk of audio is dropped exactly where it is more than 150 ms late. One
/// that is early is fed when it is due, and any other at once.
pub proof fn late_audio_is_dropped(chunk_pts_ms: i64, pts_start_ms: i64, elapsed_ms: i64)
    requires
        drift_fits(chunk_pts_ms, pts_start_ms, elapsed_ms),
    ensures
        ({
            let due_ms = chunk_pts_ms - pts_start_ms;
            let pacing = audio_pacing(chunk_pts_ms, pts_start_ms, elapsed_ms);
            &&& elapsed_ms > due_ms + 150 <==> pacing is Drop
            &&& due_ms <= elapsed_ms <= due_ms + 150 ==> pacing == AudioPacing::Feed(0)
            &&& elapsed_ms <= due_ms ==> (pacing matches AudioPacing::Feed(wait_ms) && elapsed_ms
                + wait_ms == due_ms)
        }),
{
}

/// A video frame is fed when it is due, or at once where it is late.
pub proof fn video_waits_until_due(timestamp_ms: i64, pts_start_ms: i64, elapsed_ms: i64)
    ensures
        ({
            let due_ms = timestamp_ms - pts_start_ms;
            let wait_ms = wait_for(drift(timestamp_ms, pts_start_ms, elapsed_ms));
            &&& elapsed_ms <= due_ms ==> elapsed_ms + wait_ms == due_ms
            &&& elapsed_ms >= due_ms ==> wait_ms == 0
        }),
{
}

/// Ordinary times can be paced, and ordinary frames fed.
pub proof fn ordinary_frames_are_paced(
    context: CallbackContext,
    timestamp_ms: i64,
    pts_start_ms: i64,
    elapsed_ms: i64,
    width: u32,
    height: u32,
)
    requires
        0 <= timestamp_ms <= 0x10_0000_0000_0000,
        0 <= pts_start_ms <= 0x10_0000_0000_0000,
        0 <= elapsed_ms <= 0x10_0000_0000_0000,
        0 <= context.first_video_timestamp_ms <= 0x10_0000_0000_0000,
        context.video_frame_count < u64::MAX,
        width <= 0x4000,
        height <= 0x4000,
    ensures
        drift_fits(timestamp_ms, pts_start_ms, elapsed_ms),
        context.feeds_video(timestamp_ms, width, height),
{
    let (w, h) = (width as int, height as int);
    let (cw, ch) = (i420::chroma(width) as int, i420::chroma(height) as int);
    assert(w * h <= 0x4000 * 0x4000) by (nonlinear_arith)
        requires
            0 <= w <= 0x4000,
            0 <= h <= 0x4000,
    ;
    assert(0 <= cw * ch <= 0x2000 * 0x2000) by (nonlinear_arith)
        requires
            0 <= cw <= 0x2000,
            0 <= ch <= 0x2000,
    ;
}

/// Pacing counts from the first frame that is paced, of whatever kind and for
/// however many frames behind it.
pub proof fn pacing_base_is_kept(context: CallbackContext, first_ms: i64, later_ms: i64)
    ensures
        context.pacing_pts_start_ms is None ==> context.pacing_base(first_ms) == first_ms,
        ({
            let base = context.pacing_base(first_ms);
            let next = CallbackContext { pacing_pts_start_ms: Some(base), ..context };
            next.pacing_base(later_ms) == base
        }),
{
}

/// The time of a video frame counts from the first one, which has time zero; two
/// frames are as far apart as their timestamps, in microseconds.
pub proof fn video_time_counts_from_the_first(context: CallbackContext, a_ms: i64, b_ms: i64)
    requires
        context.video_frame_count < u64::MAX,
    ensures
        context.video_frame_count == 0 ==> context.video_time_us(a_ms) == 0,
        context.video_fed(a_ms).video_time_us(b_ms) - context.video_time_us(a_ms) == 1000 * (b_ms
            - a_ms),
        context.video_fed(a_ms).video_frame_count == context.video_frame_count + 1,
        context.video_fed(a_ms).last_video_timestamp_ms == a_ms,
        context.video_frame_count > 0 ==> context.video_fed(a_ms).first_video_timestamp_ms
            == context.first_video_timestamp_ms,
        (CallbackContext {
            video_frame_count: context.video_frame_count,
            first_video_timestamp_ms: context.first_video_timestamp_ms,
            last_video_timestamp_ms: context.last_video_timestamp_ms,
            ..context.video_fed(a_ms)
        }) == context,
{
}

/// A frame that is queued and taken leaves the backlog as it was, and the longest
/// backlog is never below it. Nothing else changes.
pub proof fn queues_are_counted(context: CallbackContext)
    requires
        context.video_queue_backlog < i64::MAX,
        context.audio_queue_backlog < i64::MAX,
    ensures
        ({
            let queued = context.video_queued();
            &&& queued.video_queue_backlog == context.video_queue_backlog + 1
            &&& queued.video_queue_backlog_max >= queued.video_queue_backlog
            &&& queued.video_queue_backlog_max >= context.video_queue_backlog_max
            &&& queued.video_queue_backlog_max == queued.video_queue_backlog
                || queued.video_queue_backlog_max == context.video_queue_backlog_max
            &&& queued.video_taken().video_queue_backlog == context.video_queue_backlog
            &&& queued.video_taken().video_queue_backlog_max == queued.video_queue_backlog_max
            &&& (CallbackContext {
                video_queue_backlog_max: context.video_queue_backlog_max,
                ..queued.video_taken()
            }) == context
        }),
        ({
            let queued = context.audio_queued();
            &&& queued.audio_queue_backlog == context.audio_queue_backlog + 1
            &&& queued.audio_queue_backlog_max >= queued.audio_queue_backlog
            &&& queued.audio_queue_backlog_max >= context.audio_queue_backlog_max
            &&& queued.audio_queue_backlog_max == queued.audio_queue_backlog
                || queued.audio_queue_backlog_max == context.audio_queue_backlog_max
            &&& queued.audio_taken().audio_queue_backlog == context.audio_queue_backlog
            &&& queued.audio_taken().audio_queue_backlog_max == queued.audio_queue_backlog_max
            &&& (CallbackContext {
                audio_queue_backlog_max: context.audio_queue_backlog_max,
                ..queued.audio_taken()
            }) == context
        }),
{
}

/// Frames of audio are counted and their samples added up, modulo 64 bits. The
/// first clock and the first timestamp that were seen are kept, and the last ones
/// are those of the last frame. Nothing else changes.
pub proof fn audio_frames_add_up(
    context: CallbackContext,
    samples: u32,
    clock_ms: i64,
    mkv_ms: i64,
    more: u32,
    later_clock_ms: i64,
    later_mkv_ms: i64,
)
    requires
        context.audio_frame_count < u64::MAX - 1,
        mkv_ms >= 0,
    ensures
        ({
            let one = context.audio_begun(samples, clock_ms, mkv_ms);
            let two = one.audio_begun(more, later_clock_ms, later_mkv_ms);
            &&& one.audio_frame_count == context.audio_frame_count + 1
            &&& one.audio_total_samples == context.audio_total_samples + samples
                || one.audio_total_samples + 0x1_0000_0000_0000_0000 == context.audio_total_samples
                + samples
            &&& one.last_audio_timestamp_ms == clock_ms
            &&& one.last_audio_mkv_timestamp_ms == mkv_ms
            &&& context.audio_frame_count == 0 ==> one.first_audio_timestamp_ms == clock_ms
            &&& context.first_audio_mkv_timestamp_ms < 0 ==> one.first_audio_mkv_timestamp_ms
                == mkv_ms
            &&& context.first_audio_mkv_timestamp_ms >= 0 ==> one.first_audio_mkv_timestamp_ms
                == context.first_audio_mkv_timestamp_ms
            &&& two.first_audio_timestamp_ms == one.first_audio_timestamp_ms
            &&& two.first_audio_mkv_timestamp_ms == one.first_audio_mkv_timestamp_ms
            &&& (CallbackContext {
                audio_frame_count: context.audio_frame_count,
                first_audio_timestamp_ms: context.first_audio_timestamp_ms,
                first_audio_mkv_timestamp_ms: context.first_audio_mkv_timestamp_ms,
                last_audio_timestamp_ms: context.last_audio_timestamp_ms,
                last_audio_mkv_timestamp_ms: context.last_audio_mkv_timestamp_ms,
                audio_total_samples: context.audio_total_samples,
                ..one
            }) == context
        }),
{
}

/// Pacing a chunk of audio keeps the first timestamp that was seen, and notes the
/// last one and its drift. Nothing else changes.
pub proof fn paced_audio_is_noted(
    context: CallbackContext,
    chunk_pts_ms: i64,
    pts_start_ms: i64,
    elapsed_ms: i64,
)
    requires
        drift_fits(chunk_pts_ms, pts_start_ms, elapsed_ms),
    ensures
        ({
            let paced = context.audio_paced(chunk_pts_ms, pts_start_ms, elapsed_ms);
            &&& paced.last_audio_mkv_timestamp_ms == chunk_pts_ms
            &&& chunk_pts_ms - pts_start_ms + paced.last_audio_drift_ms == elapsed_ms
            &&& context.first_audio_mkv_timestamp_ms < 0 ==> paced.first_audio_mkv_timestamp_ms
                == chunk_pts_ms
            &&& context.first_audio_mkv_timestamp_ms >= 0 ==> paced.first_audio_mkv_timestamp_ms
                == context.first_audio_mkv_timestamp_ms
            &&& (CallbackContext {
                first_audio_mkv_timestamp_ms: context.first_audio_mkv_timestamp_ms,
                last_audio_mkv_timestamp_ms: context.last_audio_mkv_timestamp_ms,
                last_audio_drift_ms: context.last_audio_drift_ms,
                ..paced
            }) == context
        }),
{
}

/// Waits are counted and added up, those that are not negative, modulo 64 bits;
/// the longest is kept, and their mean lies within one millisecond below the
/// exact one. Nothing else changes.
pub proof fn waits_add_up(context: CallbackContext, wait_ms: i64)
    ensures
        ({
            let ended = context.audio_ended(wait_ms);
            let added = ended.audio_capture_wait_total_ms - context.audio_capture_wait_total_ms;
            &&& ended.last_audio_capture_wait_ms == wait_ms
            &&& wait_ms >= 0 ==> added == wait_ms || added + 0x1_0000_0000_0000_0000 == wait_ms
            &&& wait_ms < 0 ==> added == 0
            &&& context.audio_capture_wait_count < u64::MAX ==> ended.audio_capture_wait_count
                == context.audio_capture_wait_count + 1
            &&& context.audio_capture_wait_count == u64::MAX ==> ended.audio_capture_wait_count == 0
            &&& ended.audio_capture_wait_max_ms >= wait_ms
            &&& ended.audio_capture_wait_max_ms >= context.audio_capture_wait_max_ms
            &&& ended.audio_capture_wait_max_ms == wait_ms || ended.audio_capture_wait_max_ms
                == context.audio_capture_wait_max_ms
            &&& (CallbackContext {
                last_audio_capture_wait_ms: context.last_audio_capture_wait_ms,
                audio_capture_wait_total_ms: context.audio_capture_wait_total_ms,
                audio_capture_wait_count: context.audio_capture_wait_count,
                audio_capture_wait_max_ms: context.audio_capture_wait_max_ms,
                ..ended
            }) == context
        }),
        context.audio_capture_wait_count == 0 ==> context.mean_wait_ms() == -1,
        context.audio_capture_wait_count > 0 && context.audio_capture_wait_total_ms <= i64::MAX
            ==> context.mean_wait_ms() * context.audio_capture_wait_count
            <= context.audio_capture_wait_total_ms < (context.mean_wait_ms() + 1)
            * context.audio_capture_wait_count,
{
    if context.audio_capture_wait_count > 0 && context.audio_capture_wait_total_ms <= i64::MAX {
        let a = context.audio_capture_wait_total_ms as int;
        let d = context.audio_capture_wait_count as int;
        let q = a / d;
        vstd::arithmetic::div_mod::lemma_fundamental_div_mod(a, d);
        assert(q * d <= a < (q + 1) * d) by (nonlinear_arith)
            requires
                a == d * q + a % d,
                0 <= a % d < d,
        ;
        assert(0 <= q <= a) by (nonlinear_arith)
            requires
                q * d <= a < (q + 1) * d,
                a >= 0,
                d >= 1,
        ;
    }
}

/// The logged differences of times are those of the last and the first ones, of
/// video and audio, and of the two clocks of audio, where both are known.
pub proof fn stats_compare_times(context: CallbackContext, videos: u64, audios: u64)
    ensures
        ({
            let stats = context.stats(videos, audios);
            &&& videos <= context.video_frame_count ==> videos + stats.video_delta
                == context.video_frame_count
            &&& audios <= context.audio_frame_count ==> audios + stats.audio_delta
                == context.audio_frame_count
            &&& context.last_video_timestamp_ms >= 0 && context.last_audio_timestamp_ms >= 0
                ==> context.last_audio_timestamp_ms + stats.av_diff
                == context.last_video_timestamp_ms
            &&& context.last_video_timestamp_ms < 0 || context.last_audio_timestamp_ms < 0
                ==> stats.av_diff == -1
            &&& context.first_audio_timestamp_ms >= 0 && context.last_audio_timestamp_ms >= 0
                ==> context.first_audio_timestamp_ms + stats.audio_clock_ms
                == context.last_audio_timestamp_ms
            &&& context.first_audio_timestamp_ms < 0 || context.last_audio_timestamp_ms < 0
                ==> stats.audio_clock_ms == -1
            &&& context.first_audio_mkv_timestamp_ms >= 0 && context.last_audio_mkv_timestamp_ms
                >= 0 ==> context.first_audio_mkv_timestamp_ms + stats.mkv_audio_elapsed_ms
                == context.last_audio_mkv_timestamp_ms
            &&& context.first_audio_mkv_timestamp_ms < 0 || context.last_audio_mkv_timestamp_ms < 0
                ==> stats.mkv_audio_elapsed_ms == -1
            &&& stats.audio_clock_ms >= 0 && stats.mkv_audio_elapsed_ms >= 0
                ==> stats.audio_clock_ms + stats.audio_mkv_diff_ms == stats.mkv_audio_elapsed_ms
            &&& stats.audio_clock_ms < 0 || stats.mkv_audio_elapsed_ms < 0
                ==> stats.audio_mkv_diff_ms == -1
        }),
{
}

/// Before the first frame nothing was counted, and no time is known.
pub proof fn fresh_context_knows_nothing(videos: u64, audios: u64)
    ensures
        ({
            let fresh = fresh_context();
            let stats = fresh.stats(videos, audios);
            &&& fresh.video_frame_count == 0
            &&& fresh.audio_frame_count == 0
            &&& fresh.audio_total_samples == 0
            &&& fresh.pacing_pts_start_ms is None
            &&& fresh.video_queue_backlog == 0
            &&& fresh.audio_queue_backlog == 0
            &&& fresh.video_queue_backlog_max == 0
            &&& fresh.audio_queue_backlog_max == 0
            &&& fresh.last_video_drift_ms == -1
            &&& fresh.last_audio_drift_ms == -1
            &&& fresh.last_audio_capture_wait_ms == -1
            &&& fresh.audio_capture_wait_max_ms == -1
            &&& stats.video_delta == 0
            &&& stats.audio_delta == 0
            &&& stats.av_diff == -1
            &&& stats.audio_clock_ms == -1
            &&& stats.mkv_audio_elapsed_ms == -1
            &&& stats.audio_mkv_diff_ms == -1
            &&& stats.audio_capture_wait_avg_ms == -1
        }),
{
}

/// An event has one answer. The state of the connection is looked at, a frame is
/// read, handed on, and candidates are sent, round and round: until the
/// connection has failed or is closed, the stream ends or cannot be read, or a
/// task takes no more. Only the last two end it with an error.
pub proof fn frames_go_round(event: DispatchEvent, action: DispatchAction)
    requires
        follows(event, action),
    ensures
        action is Finish <==> {
            ||| event matches DispatchEvent::StateSeen(Some(s)) && (s is Failed || s is Closed)
            ||| event is EndOfStream
            ||| event is ReadFailed
            ||| event == DispatchEvent::VideoHanded(false)
            ||| event == DispatchEvent::AudioHanded(false)
        },
        action matches DispatchAction::Finish(outcome) ==> (outcome is Err <==> event is ReadFailed
            || event is VideoHanded || event is AudioHanded),
        event matches DispatchEvent::ReadFailed(reason) ==> action->Finish_0->Err_0@ == reason@,
        event is VideoHanded && action is Finish ==> action->Finish_0->Err_0@
            == "Video task terminated unexpectedly"@,
        event is AudioHanded && action is Finish ==> action->Finish_0->Err_0@
            == "Audio task terminated unexpectedly"@,
        event is StateSeen && action !is Finish ==> action is ReadFrame,
        event is VideoRead ==> action is HandVideo,
        event is AudioRead ==> action is HandAudio,
        (event is VideoHanded || event is AudioHanded) && action !is Finish ==> action is ServeIce,
        event is IceServed ==> action is SeeState,
{
}

/// A frame that its task took counts as queued in its own queue; no other event
/// changes the context.
pub proof fn handed_frames_are_queued(context: CallbackContext, event: DispatchEvent)
    requires
        context.video_queue_backlog < i64::MAX,
        context.audio_queue_backlog < i64::MAX,
    ensures
        event == DispatchEvent::VideoHanded(true) ==> context.behind(event).video_queue_backlog
            == context.video_queue_backlog + 1 && context.behind(event).audio_queue_backlog
            == context.audio_queue_backlog,
        event == DispatchEvent::AudioHanded(true) ==> context.behind(event).audio_queue_backlog
            == context.audio_queue_backlog + 1 && context.behind(event).video_queue_backlog
            == context.video_queue_backlog,
        event != DispatchEvent::VideoHanded(true) && event != DispatchEvent::AudioHanded(true)
            ==> context.behind(event) == context,
{
}

/// Sending succeeds exactly where the reading and both tasks did. That a task
/// panicked hides any other error, and why the reading ended hides why a task
/// did; of two tasks, video is named.
pub proof fn failures_have_an_order(dispatch: Result<(), String>, video: TaskEnd, audio: TaskEnd)
    ensures
        first_failure(dispatch, video, audio) is None <==> dispatch is Ok && video is Finished
            && audio is Finished,
        video matches TaskEnd::Panicked(reason) ==> first_failure(dispatch, video, audio) == Some(
            "Video task panicked: "@ + reason@,
        ),
        video !is Panicked ==> (audio matches TaskEnd::Panicked(reason) ==> first_failure(
            dispatch,
            video,
            audio,
        ) == Some("Audio task panicked: "@ + reason@)),
        video !is Panicked && audio !is Panicked ==> {
            &&& dispatch matches Err(e) ==> first_failure(dispatch, video, audio) == Some(e@)
            &&& dispatch is Ok ==> (video matches TaskEnd::Failed(e) ==> first_failure(
                dispatch,
                video,
                audio,
            ) == Some(e@))
            &&& dispatch is Ok && video is Finished ==> (audio matches TaskEnd::Failed(e)
                ==> first_failure(dispatch, video, audio) == Some(e@))
        },
{
}

} // verus!
