//! From captured frames to encoded samples.
//!
//! Capturing runs in rounds. A round pulls a raw frame, marks it, pushes it to the encoder,
//! pulls what the encoder has ready and sends that on. Each function here takes how one step
//! went and says what the next step is.

use vstd::prelude::*;

use crate::frame::{
    add_live_indicator, indicator_center, indicator_due, pixel_at, shows_indicator,
    with_indicator, RgbaFrame,
};

verus! {

/// Width of the captured and encoded video.
pub const VIDEO_WIDTH: u32 = 480;

/// Height of the captured and encoded video.
pub const VIDEO_HEIGHT: u32 = 360;

/// Frames per second of the captured video.
pub const VIDEO_FRAMERATE: i32 = 30;

/// Bytes of one raw frame.
pub const FRAME_BYTES: usize = 691200;

/// How many encoded frames may wait for the track.
pub const ENCODED_FRAME_QUEUE: usize = 2;

/// How long to wait after a failure, in milliseconds.
pub const BACKOFF_MILLIS: u64 = 200;

/// How long one video sample lasts, in milliseconds.
pub const VIDEO_SAMPLE_MILLIS: u64 = 33;

/// The two pipelines of the video.
#[derive(Debug, Clone, Copy, PartialEq, Eq)]
pub enum VideoPipeline {
    Capture,
    Encode,
}

/// How pulling a sample went.
pub enum Pulled {
    /// The sink gave an error.
    Failed,
    /// There was a sample without bytes that could be read.
    Empty,
    /// There was a sample with these bytes.
    Data { bytes: Vec<u8> },
}

/// How pushing a frame to the encoder went.
#[derive(Debug, Clone, Copy, PartialEq, Eq)]
pub enum Pushed {
    /// There was no buffer for it.
    NoBuffer,
    /// The encoder did not take it.
    Refused,
    /// The encoder took it.
    Accepted,
}

/// What to do next.
pub enum Step {
    /// Begin a round: pull a raw frame.
    PullRaw,
    /// Report the errors of a pipeline, wait, and begin a round.
    Backoff { pipeline: VideoPipeline, millis: u64 },
    /// Push this frame to the encoder.
    Push { frame: Vec<u8> },
    /// Pull what the encoder has ready.
    PullEncoded,
    /// Send this encoded frame to the track.
    Send { encoded: Vec<u8> },
    /// Stop both pipelines.
    Stop,
}

/// The number that the frame after frame `count` has. Numbers run up to 120 and then go on
/// from 1.
pub open spec fn next_count(count: u32) -> u32 {
    if count == 120 {
        1
    } else {
        (count + 1) as u32
    }
}

/// The number of the frame that `n` frames precede.
pub open spec fn count_at(n: nat) -> u32
    decreases n,
{
    if n == 0 {
        0
    } else {
        next_count(count_at((n - 1) as nat))
    }
}

/// The bytes that the encoder gets for a raw frame.
pub open spec fn marked(count: u32, pixels: Seq<u8>) -> Seq<u8> {
    if indicator_due(count) {
        with_indicator(VIDEO_WIDTH, VIDEO_HEIGHT, pixels)
    } else {
        pixels
    }
}

/// What is remembered from round to round.
pub struct Capture {
    frame_count: u32,
}

impl Capture {
    /// The number of the next frame.
    pub closed spec fn count(&self) -> u32 {
        self.frame_count
    }

    /// The number is one that a frame can have.
    pub open spec fn wf(&self) -> bool {
        self.count() <= 120
    }

    /// Before the first frame.
    pub fn new() -> (capture: Capture)
        ensures
            capture.wf(),
            capture.count() == count_at(0),
    {
        Capture { frame_count: 0 }
    }

    /// After a raw frame was pulled. A frame of another size is passed over and not counted.
    pub fn on_raw(&mut self, pulled: Pulled) -> (step: Step)
        requires
            old(self).wf(),
        ensures
            final(self).wf(),
            match pulled {
                Pulled::Data { bytes } if bytes@.len() == FRAME_BYTES => {
                    &&& final(self).count() == next_count(old(self).count())
                    &&& step matches Step::Push { frame } && frame@ == marked(
                        old(self).count(),
                        bytes@,
                    ) && frame@.len() == FRAME_BYTES && (indicator_due(old(self).count())
                        ==> shows_indicator(VIDEO_WIDTH, VIDEO_HEIGHT, bytes@, frame@))
                },
                Pulled::Failed => final(self).count() == old(self).count() && step
                    == (Step::Backoff { pipeline: VideoPipeline::Capture, millis: BACKOFF_MILLIS }),
                _ => final(self).count() == old(self).count() && step is PullRaw,
            },
            pulled matches Pulled::Data { bytes } ==> bytes@.len() == 691200 ==> {
                &&& step is Push
                &&& step->frame@.len() == bytes@.len()
                &&& old(self).count() % 60 != 0 ==> step->frame@ == bytes@
                &&& old(self).count() % 60 == 0 ==> forall|x: int, y: int|
                    0 <= x < 480 && 0 <= y < 360 ==> {
                        let pixel = #[trigger] pixel_at(step->frame@, 480, x, y);
                        &&& (x - 440) * (x - 440) + (y - 30) * (y - 30) <= 576 ==> pixel == seq![
                            255u8,
                            0,
                            0,
                            255,
                        ]
                        &&& pixel == seq![255u8, 0, 0, 255] || pixel == pixel_at(bytes@, 480, x, y)
                        &&& x < 415 || x > 465 || y < 5 || y > 55 ==> pixel == pixel_at(
                            bytes@,
                            480,
                            x,
                            y,
                        )
                    }
                &&& old(self).count() == 120 ==> final(self).count() == 1
                &&& old(self).count() != 120 ==> final(self).count() == old(self).count() + 1
            },
    {
        let bytes = match pulled {
            Pulled::Failed => return Step::Backoff {
                pipeline: VideoPipeline::Capture,
                millis: BACKOFF_MILLIS,
            },
            Pulled::Empty => return Step::PullRaw,
            Pulled::Data { bytes } => bytes,
        };
        if bytes.len() != FRAME_BYTES {
            return Step::PullRaw;
        }
        match RgbaFrame::from_raw(VIDEO_WIDTH, VIDEO_HEIGHT, bytes) {
            Some(mut frame) => {
                add_live_indicator(&mut frame, self.frame_count);
                if self.frame_count == 120 {
                    self.frame_count = 0;
                }
                self.frame_count = self.frame_count + 1;
                Step::Push { frame: frame.into_raw() }
            },
            None => Step::PullRaw,
        }
    }
}

/// After a frame was pushed to the encoder.
pub fn on_pushed(pushed: Pushed) -> (step: Step)
    ensures
        match pushed {
            Pushed::NoBuffer => step is PullRaw,
            Pushed::Refused => step == (Step::Backoff {
                pipeline: VideoPipeline::Encode,
                millis: BACKOFF_MILLIS,
            }),
            Pushed::Accepted => step is PullEncoded,
        },
{
    match pushed {
        Pushed::NoBuffer => Step::PullRaw,
        Pushed::Refused => Step::Backoff {
            pipeline: VideoPipeline::Encode,
            millis: BACKOFF_MILLIS,
        },
        Pushed::Accepted => Step::PullEncoded,
    }
}

/// After the encoder was asked for what it has ready.
pub fn on_encoded(pulled: Pulled) -> (step: Step)
    ensures
        match pulled {
            Pulled::Failed => step == (Step::Backoff {
                pipeline: VideoPipeline::Encode,
                millis: BACKOFF_MILLIS,
            }),
            Pulled::Empty => step is PullRaw,
            Pulled::Data { bytes } => step == (Step::Send { encoded: bytes }),
        },
{
    match pulled {
        Pulled::Failed => Step::Backoff {
            pipeline: VideoPipeline::Encode,
            millis: BACKOFF_MILLIS,
        },
        Pulled::Empty => Step::PullRaw,
        Pulled::Data { bytes } => Step::Send { encoded: bytes },
    }
}

/// After an encoded frame was sent; `taken` says whether anybody was there to take it.
pub fn on_sent(taken: bool) -> (step: Step)
    ensures
        taken ==> step is PullRaw,
        !taken ==> step is Stop,
{
    if taken {
        Step::PullRaw
    } else {
        Step::Stop
    }
}

/// After the wait that follows a failure, in whichever pipeline it was.
pub fn on_waited() -> (step: Step)
    ensures
        step is PullRaw,
{
    Step::PullRaw
}

/// Whether the track is to be written to again, once a write has gone well or not.
pub fn on_written(written: bool) -> (go_on: bool)
    ensures
        go_on == written,
{
    written
}

/// The number of the frame that `n` frames precede, in closed form.
proof fn lemma_count_at(n: nat)
    ensures
        count_at(n) == (if n == 0 {
            0
        } else {
            (n - 1) % 120 + 1
        }),
    decreases n,
{
    if n > 0 {
        lemma_count_at((n - 1) as nat);
    }
}

/// The live indicator is shown on the first frame and on every sixtieth one after it, for as
/// long as the camera runs.
pub proof fn indicator_on_every_sixtieth_frame(n: nat)
    ensures
        indicator_due(count_at(n)) <==> n % 60 == 0,
        count_at(n) <= 120,
{
    lemma_count_at(n);
}

/// The encoder gets every frame as it was captured, but for the indicator on those that it is due
/// on.
pub proof fn frames_pass_as_captured(count: u32, pixels: Seq<u8>)
    ensures
        count % 60 != 0 ==> marked(count, pixels) == pixels,
        count % 60 == 0 ==> marked(count, pixels) == with_indicator(480, 360, pixels),
        marked(count, pixels).len() == pixels.len(),
        indicator_center(480, 360) == (440i32, 30i32),
{
}

/// Numbers go up by one, from 120 on to 1.
pub proof fn numbers_go_round(count: u32)
    requires
        count <= 120,
    ensures
        count == 120 ==> next_count(count) == 1,
        count < 120 ==> next_count(count) == count + 1,
{
}

/// A frame has four bytes for each pixel, a sample lasts as long as a frame, and few frames wait.
pub proof fn video_is_timed_and_sized()
    ensures
        VIDEO_WIDTH == 480,
        VIDEO_HEIGHT == 360,
        FRAME_BYTES == 4 * VIDEO_WIDTH * VIDEO_HEIGHT,
        VIDEO_FRAMERATE == 30,
        VIDEO_SAMPLE_MILLIS * VIDEO_FRAMERATE <= 1000 < (VIDEO_SAMPLE_MILLIS + 1)
            * VIDEO_FRAMERATE,
        ENCODED_FRAME_QUEUE == 2,
        BACKOFF_MILLIS == 200,
{
}

/// The number of the next frame, once samples of these sizes have been pulled since the
/// beginning; a sample without bytes has no size.
pub open spec fn count_after(sizes: Seq<Option<nat>>) -> u32
    decreases sizes.len(),
{
    if sizes.len() == 0 {
        count_at(0)
    } else if sizes.last() == Some(FRAME_BYTES as nat) {
        next_count(count_after(sizes.drop_last()))
    } else {
        count_after(sizes.drop_last())
    }
}

/// How many of the samples are frames.
pub open spec fn frames_among(sizes: Seq<Option<nat>>) -> nat
    decreases sizes.len(),
{
    if sizes.len() == 0 {
        0
    } else {
        frames_among(sizes.drop_last()) + if sizes.last() == Some(FRAME_BYTES as nat) {
            1nat
        } else {
            0nat
        }
    }
}

/// Only frames count: samples of another size and failures in between do not shift the
/// indicator.
pub proof fn only_frames_count(sizes: Seq<Option<nat>>)
    ensures
        count_after(sizes) == count_at(frames_among(sizes)),
        indicator_due(count_after(sizes)) <==> frames_among(sizes) % 60 == 0,
    decreases sizes.len(),
{
    if sizes.len() > 0 {
        only_frames_count(sizes.drop_last());
    }
    indicator_on_every_sixtieth_frame(frames_among(sizes));
}

} // verus!
