//! Media pipelines, the samples that they give, and what they report.

use vstd::prelude::*;

use crate::capture::VideoPipeline;

verus! {

/// How long one audio sample lasts, in milliseconds.
pub const AUDIO_SAMPLE_MILLIS: u64 = 20;

/// How long to wait between two audio samples, in milliseconds.
pub const AUDIO_PAUSE_MILLIS: u64 = 10;

/// Audio samples per second.
pub const AUDIO_RATE: i32 = 48000;

/// Channels of the captured audio.
pub const AUDIO_CHANNELS: i32 = 1;

/// The system that the camera runs on.
#[derive(Debug, Clone, Copy, PartialEq, Eq)]
pub enum Platform {
    Mac,
    Linux,
}

/// The pipeline element that gives video on a platform.
pub open spec fn video_source_text(platform: Platform) -> Seq<char> {
    match platform {
        Platform::Mac => "avfvideosrc device-index=0"@,
        Platform::Linux => "v4l2src device=/dev/video0"@,
    }
}

/// The pipeline element that gives audio on a platform.
pub open spec fn audio_source_text(platform: Platform) -> Seq<char> {
    match platform {
        Platform::Mac => "osxaudiosrc"@,
        Platform::Linux => "alsasrc device=hw:2,0"@,
    }
}

/// The pipeline that captures video: the camera negotiates its own mode, and the frames are
/// then scaled to RGBA of the target size. Its sink is `raw_sink`.
pub fn capture_pipeline(platform: Platform) -> (description: String)
    ensures
        description@ == video_source_text(platform)
            + " ! videoconvert ! videoscale ! video/x-raw,format=RGBA,width=480,height=360 ! appsink name=raw_sink emit-signals=true sync=false max-buffers=1 drop=true"@,
{
    let source = match platform {
        Platform::Mac => "avfvideosrc device-index=0",
        Platform::Linux => "v4l2src device=/dev/video0",
    };
    source.to_string().concat(
        " ! videoconvert ! videoscale ! video/x-raw,format=RGBA,width=480,height=360 ! appsink name=raw_sink emit-signals=true sync=false max-buffers=1 drop=true",
    )
}

/// The pipeline that encodes video. Its source is `src` and its sink is `sink`.
pub fn encode_pipeline() -> (description: String)
    ensures
        description@
            == "appsrc name=src is-live=true do-timestamp=true ! queue max-size-buffers=4 max-size-time=0 leaky=downstream ! videoconvert ! video/x-raw,format=I420,width=480,height=360 ! x264enc speed-preset=ultrafast tune=zerolatency bitrate=800 key-int-max=30 ! video/x-h264,profile=constrained-baseline,stream-format=byte-stream,alignment=au ! appsink name=sink emit-signals=true sync=false max-buffers=1 drop=true"@,
{
    "appsrc name=src is-live=true do-timestamp=true ! queue max-size-buffers=4 max-size-time=0 leaky=downstream ! videoconvert ! video/x-raw,format=I420,width=480,height=360 ! x264enc speed-preset=ultrafast tune=zerolatency bitrate=800 key-int-max=30 ! video/x-h264,profile=constrained-baseline,stream-format=byte-stream,alignment=au ! appsink name=sink emit-signals=true sync=false max-buffers=1 drop=true".to_string()
}

/// The pipeline that captures and encodes audio. Its sink is `audio_sink`.
pub fn audio_pipeline(platform: Platform) -> (description: String)
    ensures
        description@ == audio_source_text(platform)
            + " ! audioconvert ! audioresample ! audio/x-raw,channels=1,rate=48000 ! queue ! opusenc ! appsink name=audio_sink"@,
{
    let source = match platform {
        Platform::Mac => "osxaudiosrc",
        Platform::Linux => "alsasrc device=hw:2,0",
    };
    source.to_string().concat(
        " ! audioconvert ! audioresample ! audio/x-raw,channels=1,rate=48000 ! queue ! opusenc ! appsink name=audio_sink",
    )
}

/// One round of the audio: what is written to the track, and how long to wait after it.
pub struct AudioStep {
    /// The bytes of the sample, if there is one.
    pub write: Option<Vec<u8>>,
    /// How long the sample lasts, in milliseconds.
    pub duration_millis: u64,
    /// How long to wait, in milliseconds.
    pub pause_millis: u64,
}

/// What to do with what the audio sink gave: bytes are written to the track, and a failure or
/// an empty sample is passed over. Either way the next round begins after a pause.
pub fn audio_step(pulled: Option<Vec<u8>>) -> (step: AudioStep)
    ensures
        step.write == pulled,
        step.duration_millis == AUDIO_SAMPLE_MILLIS,
        step.pause_millis == AUDIO_PAUSE_MILLIS,
{
    AudioStep {
        write: pulled,
        duration_millis: AUDIO_SAMPLE_MILLIS,
        pause_millis: AUDIO_PAUSE_MILLIS,
    }
}

/// What a pipeline reports on its bus. The parts are in the form in which they are shown.
pub enum BusMessage {
    Error { source: String, error: String, debug: String },
    Warning { source: String, error: String },
    Eos,
    Other,
}

/// The name under which a pipeline is reported.
pub open spec fn label_text(pipeline: VideoPipeline) -> Seq<char> {
    match pipeline {
        VideoPipeline::Capture => "capture"@,
        VideoPipeline::Encode => "encode"@,
    }
}

/// The line that reports a message of a pipeline's bus.
pub open spec fn bus_line_text(pipeline: VideoPipeline, message: BusMessage) -> Option<Seq<char>> {
    let head = "[GStreamer] "@ + label_text(pipeline);
    match message {
        BusMessage::Error { source, error, debug } => Some(
            head + " ERROR from "@ + source@ + ": "@ + error@ + " — "@ + debug@,
        ),
        BusMessage::Warning { source, error } => Some(
            head + " WARNING from "@ + source@ + ": "@ + error@,
        ),
        BusMessage::Eos => Some(head + " EOS"@),
        BusMessage::Other => None,
    }
}

/// The line that reports a message of a pipeline's bus; other messages than errors, warnings
/// and the end of the stream are not reported.
pub fn bus_line(pipeline: VideoPipeline, message: &BusMessage) -> (line: Option<String>)
    ensures
        match line {
            Some(l) => bus_line_text(pipeline, *message) == Some(l@),
            None => bus_line_text(pipeline, *message) is None,
        },
        line is None <==> message is Other,
{
    let label = match pipeline {
        VideoPipeline::Capture => "capture",
        VideoPipeline::Encode => "encode",
    };
    let head = "[GStreamer] ".to_string().concat(label);
    match message {
        BusMessage::Error { source, error, debug } => Some(
            head.concat(" ERROR from ").concat(source.as_str()).concat(": ").concat(
                error.as_str(),
            ).concat(" — ").concat(debug.as_str()),
        ),
        BusMessage::Warning { source, error } => Some(
            head.concat(" WARNING from ").concat(source.as_str()).concat(": ").concat(
                error.as_str(),
            ),
        ),
        BusMessage::Eos => Some(head.concat(" EOS")),
        BusMessage::Other => None,
    }
}

/// A report names its pipeline and its kind, and then tells the parts of the message in their
/// order, whatever they say.
pub proof fn report_tells_the_whole_message(source: String, error: String, debug: String)
    ensures
        bus_line_text(VideoPipeline::Capture, BusMessage::Error { source, error, debug }) == Some(
            "[GStreamer] "@ + "capture"@ + " ERROR from "@ + source@ + ": "@ + error@ + " — "@
                + debug@,
        ),
        bus_line_text(VideoPipeline::Encode, BusMessage::Error { source, error, debug }) == Some(
            "[GStreamer] "@ + "encode"@ + " ERROR from "@ + source@ + ": "@ + error@ + " — "@
                + debug@,
        ),
        bus_line_text(VideoPipeline::Capture, BusMessage::Warning { source, error }) == Some(
            "[GStreamer] "@ + "capture"@ + " WARNING from "@ + source@ + ": "@ + error@,
        ),
        bus_line_text(VideoPipeline::Encode, BusMessage::Warning { source, error }) == Some(
            "[GStreamer] "@ + "encode"@ + " WARNING from "@ + source@ + ": "@ + error@,
        ),
        bus_line_text(VideoPipeline::Capture, BusMessage::Eos) == Some(
            "[GStreamer] "@ + "capture"@ + " EOS"@,
        ),
        bus_line_text(VideoPipeline::Encode, BusMessage::Eos) == Some(
            "[GStreamer] "@ + "encode"@ + " EOS"@,
        ),
        bus_line_text(VideoPipeline::Capture, BusMessage::Other) is None,
        bus_line_text(VideoPipeline::Encode, BusMessage::Other) is None,
{
}

/// Each platform has its own sources.
pub proof fn platforms_have_their_sources()
    ensures
        video_source_text(Platform::Mac) == "avfvideosrc device-index=0"@,
        video_source_text(Platform::Linux) == "v4l2src device=/dev/video0"@,
        audio_source_text(Platform::Mac) == "osxaudiosrc"@,
        audio_source_text(Platform::Linux) == "alsasrc device=hw:2,0"@,
{
}

/// Audio is pulled faster than it plays, and captured in the form that the pipeline asks for.
pub proof fn audio_keeps_up()
    ensures
        AUDIO_SAMPLE_MILLIS == 20,
        AUDIO_PAUSE_MILLIS == 10,
        AUDIO_PAUSE_MILLIS < AUDIO_SAMPLE_MILLIS,
        AUDIO_RATE == 48000,
        AUDIO_CHANNELS == 1,
{
}

} // verus!
