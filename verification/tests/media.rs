use rusty_cam::capture::{
    on_encoded, on_pushed, on_sent, on_waited, on_written, Capture, Pulled, Pushed, Step,
    VideoPipeline, BACKOFF_MILLIS, FRAME_BYTES, VIDEO_HEIGHT, VIDEO_WIDTH,
};
use rusty_cam::frame::{add_live_indicator, RgbaFrame};
use rusty_cam::media::{
    audio_pipeline, audio_step, bus_line, capture_pipeline, encode_pipeline, BusMessage, Platform,
};
use rusty_cam::page::{home_page, replace_all};

fn pixel(bytes: &Vec<u8>, width: usize, x: usize, y: usize) -> Vec<u8> {
    let at = 4 * (y * width + x);
    bytes[at..at + 4].to_vec()
}

const RED: [u8; 4] = [255, 0, 0, 255];

#[test]
fn indicator_is_a_red_dot_in_the_upper_right_corner() {
    let mut frame = RgbaFrame::from_raw(480, 360, vec![7u8; FRAME_BYTES]).unwrap();
    add_live_indicator(&mut frame, 60);
    let bytes = frame.into_raw();
    assert_eq!(bytes.len(), FRAME_BYTES);
    let mut red = 0;
    for y in 0i64..360 {
        for x in 0i64..480 {
            let here = pixel(&bytes, 480, x as usize, y as usize);
            let (dx, dy) = ((x - 440).abs(), (y - 30).abs());
            let (far, near) = (dx.max(dy), dx.min(dy));
            if far * far - far + near * near < 25 * 25 {
                assert_eq!(here, RED);
                red += 1;
            } else {
                assert_eq!(here, vec![7, 7, 7, 7]);
            }
            if dx * dx + dy * dy <= 24 * 24 {
                assert_eq!(here, RED);
            }
            if dx > 25 || dy > 25 {
                assert_eq!(here, vec![7, 7, 7, 7]);
            }
        }
    }
    assert_eq!(red, 2025);
}

#[test]
fn indicator_shows_on_every_sixtieth_number() {
    for count in vec![0u32, 60, 120, 180] {
        let mut frame = RgbaFrame::from_raw(480, 360, vec![0u8; FRAME_BYTES]).unwrap();
        add_live_indicator(&mut frame, count);
        assert_eq!(pixel(&frame.into_raw(), 480, 440, 30), RED);
    }
    for count in vec![1u32, 59, 61, 119, 121] {
        let mut frame = RgbaFrame::from_raw(480, 360, vec![0u8; FRAME_BYTES]).unwrap();
        add_live_indicator(&mut frame, count);
        assert_eq!(frame.into_raw(), vec![0u8; FRAME_BYTES]);
    }
}

#[test]
fn indicator_drawn_twice_is_the_indicator() {
    let noise: Vec<u8> = (0..FRAME_BYTES).map(|i| (i * 31 % 251) as u8).collect();
    let mut twice = RgbaFrame::from_raw(480, 360, noise.clone()).unwrap();
    add_live_indicator(&mut twice, 60);
    add_live_indicator(&mut twice, 120);
    let mut once = RgbaFrame::from_raw(480, 360, noise.clone()).unwrap();
    add_live_indicator(&mut once, 120);
    let once = once.into_raw();
    assert_ne!(once, noise);
    assert_eq!(twice.into_raw(), once);
}

#[test]
fn indicator_of_an_overlong_row_is_nothing() {
    let mut frame = RgbaFrame::from_raw(u32::MAX, 0, vec![5u8; 8]).unwrap();
    add_live_indicator(&mut frame, 0);
    assert_eq!(frame.into_raw(), vec![5u8; 8]);
}

#[test]
fn indicator_of_a_small_frame_is_cut_off() {
    let mut frame = RgbaFrame::from_raw(30, 21, vec![0u8; 30 * 21 * 4]).unwrap();
    add_live_indicator(&mut frame, 0);
    let bytes = frame.into_raw();
    assert_eq!(pixel(&bytes, 30, 25, 20), RED);
    assert_eq!(pixel(&bytes, 30, 0, 20), RED);
    assert_eq!(pixel(&bytes, 30, 0, 0), vec![0, 0, 0, 0]);
}

#[test]
fn indicator_of_an_empty_frame_is_nothing() {
    let mut frame = RgbaFrame::from_raw(0, 0, vec![1, 2, 3]).unwrap();
    add_live_indicator(&mut frame, 0);
    assert_eq!(frame.into_raw(), vec![1, 2, 3]);
}

#[test]
fn frame_needs_four_bytes_a_pixel() {
    assert!(RgbaFrame::from_raw(2, 3, vec![0u8; 23]).is_none());
    assert!(RgbaFrame::from_raw(2, 3, vec![0u8; 24]).is_some());
    assert!(RgbaFrame::from_raw(2, 3, vec![0u8; 25]).is_some());
    assert!(RgbaFrame::from_raw(u32::MAX, u32::MAX, vec![0u8; 25]).is_none());
}

fn push(capture: &mut Capture, value: u8) -> Vec<u8> {
    match capture.on_raw(Pulled::Data { bytes: vec![value; FRAME_BYTES] }) {
        Step::Push { frame } => frame,
        _ => panic!("not pushed"),
    }
}

#[test]
fn every_sixtieth_frame_is_marked() {
    assert_eq!(FRAME_BYTES, (VIDEO_WIDTH * VIDEO_HEIGHT * 4) as usize);
    let mut capture = Capture::new();
    for n in 0..305 {
        let frame = push(&mut capture, 9);
        let marked = pixel(&frame, 480, 440, 30) == RED;
        assert_eq!(marked, n % 60 == 0, "{}", n);
        if !marked {
            assert_eq!(pixel(&frame, 480, 440, 30), vec![9, 9, 9, 9]);
        }
    }
}

#[test]
fn samples_that_are_no_frames_do_not_count() {
    let mut capture = Capture::new();
    let short = Pulled::Data { bytes: vec![0u8; FRAME_BYTES - 1] };
    assert!(matches!(capture.on_raw(short), Step::PullRaw));
    assert!(matches!(capture.on_raw(Pulled::Empty), Step::PullRaw));
    assert!(matches!(
        capture.on_raw(Pulled::Failed),
        Step::Backoff { pipeline: VideoPipeline::Capture, millis: BACKOFF_MILLIS }
    ));
    assert_eq!(pixel(&push(&mut capture, 1), 480, 440, 30), RED);
    assert_eq!(push(&mut capture, 1), vec![1u8; FRAME_BYTES]);
}

#[test]
fn round_goes_on_or_backs_off() {
    assert_eq!(BACKOFF_MILLIS, 200);
    assert!(matches!(on_pushed(Pushed::NoBuffer), Step::PullRaw));
    assert!(matches!(
        on_pushed(Pushed::Refused),
        Step::Backoff { pipeline: VideoPipeline::Encode, millis: 200 }
    ));
    assert!(matches!(on_pushed(Pushed::Accepted), Step::PullEncoded));
    assert!(matches!(
        on_encoded(Pulled::Failed),
        Step::Backoff { pipeline: VideoPipeline::Encode, millis: 200 }
    ));
    assert!(matches!(on_encoded(Pulled::Empty), Step::PullRaw));
    match on_encoded(Pulled::Data { bytes: vec![1, 2] }) {
        Step::Send { encoded } => assert_eq!(encoded, vec![1, 2]),
        _ => panic!("not sent"),
    }
    assert!(matches!(on_sent(true), Step::PullRaw));
    assert!(matches!(on_sent(false), Step::Stop));
    assert!(matches!(on_waited(), Step::PullRaw));
    assert!(on_written(true));
    assert!(!on_written(false));
}

#[test]
fn pipelines_begin_at_the_platforms_sources() {
    assert_eq!(
        capture_pipeline(Platform::Linux),
        "v4l2src device=/dev/video0 ! \
         videoconvert ! videoscale ! \
         video/x-raw,format=RGBA,width=480,height=360 ! \
         appsink name=raw_sink emit-signals=true sync=false max-buffers=1 drop=true"
    );
    assert!(capture_pipeline(Platform::Mac).starts_with("avfvideosrc device-index=0 ! "));
    assert_eq!(
        encode_pipeline(),
        "appsrc name=src is-live=true do-timestamp=true ! \
         queue max-size-buffers=4 max-size-time=0 leaky=downstream ! \
         videoconvert ! \
         video/x-raw,format=I420,width=480,height=360 ! \
         x264enc speed-preset=ultrafast tune=zerolatency bitrate=800 key-int-max=30 ! \
         video/x-h264,profile=constrained-baseline,stream-format=byte-stream,alignment=au ! \
         appsink name=sink emit-signals=true sync=false max-buffers=1 drop=true"
    );
    assert_eq!(
        audio_pipeline(Platform::Linux),
        "alsasrc device=hw:2,0 ! audioconvert ! audioresample ! audio/x-raw,channels=1,rate=48000 ! queue ! opusenc ! appsink name=audio_sink"
    );
    assert!(audio_pipeline(Platform::Mac).starts_with("osxaudiosrc ! "));
}

#[test]
fn audio_is_written_and_paced() {
    let step = audio_step(Some(vec![1, 2, 3]));
    assert_eq!(step.write, Some(vec![1, 2, 3]));
    assert_eq!(step.duration_millis, 20);
    assert_eq!(step.pause_millis, 10);
    assert_eq!(audio_step(None).write, None);
}

#[test]
fn bus_messages_are_reported() {
    let error = BusMessage::Error {
        source: "Some(\"/src\")".to_string(),
        error: "gone".to_string(),
        debug: "None".to_string(),
    };
    assert_eq!(
        bus_line(VideoPipeline::Capture, &error),
        Some("[GStreamer] capture ERROR from Some(\"/src\"): gone — None".to_string())
    );
    let warning = BusMessage::Warning { source: "None".to_string(), error: "slow".to_string() };
    assert_eq!(
        bus_line(VideoPipeline::Encode, &warning),
        Some("[GStreamer] encode WARNING from None: slow".to_string())
    );
    assert_eq!(
        bus_line(VideoPipeline::Encode, &BusMessage::Eos),
        Some("[GStreamer] encode EOS".to_string())
    );
    assert_eq!(bus_line(VideoPipeline::Encode, &BusMessage::Other), None);
}

#[test]
fn page_shows_the_version() {
    assert_eq!(
        home_page("<b>__RUSTY_CAM_VERSION__</b> é __RUSTY_CAM_VERSION__", "0.1.0"),
        "<b>rusty-cam v0.1.0</b> é rusty-cam v0.1.0"
    );
    assert_eq!(home_page("no mark", "0.1.0"), "no mark");
    assert_eq!(home_page("", "0.1.0"), "");
}

#[test]
fn occurrences_are_replaced_from_left_to_right() {
    for (text, pattern, replacement) in
        vec![("aaa", "aa", "b"), ("xaxax", "xax", "-"), ("abab", "ab", ""), ("a", "ab", "c")]
    {
        assert_eq!(replace_all(text, pattern, replacement), text.replace(pattern, replacement));
    }
}
