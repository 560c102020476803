use gstqrtimestamp::codec::{encode, DecodeError, GreyImage};
use gstqrtimestamp::format::{FormatDescriptor, NegotiationError, PixelFormat};
use gstqrtimestamp::sink::{latency_ms, sample_for, LatencySample, ProbeSink, ReceiveError};
use gstqrtimestamp::timeline::Rational;

/// Looks for codes in a grey image: one entry for each grid detected, its
/// text where it decodes.
fn scan(image: GreyImage) -> Vec<Option<String>> {
    let width = image.get_width();
    let height = image.get_height();
    let picture = image::GrayImage::from_raw(width, height, image.into_data()).unwrap();
    let mut prepared = rqrr::PreparedImage::prepare(picture);
    let grids = prepared.detect_grids();
    grids.iter().map(|grid| grid.decode().ok().map(|(_, text)| text)).collect()
}

/// Takes a frame in as an element would: receive, scan, report.
fn take_in(
    sink: &ProbeSink,
    data: Vec<u8>,
    now_ms: u128,
) -> Result<Option<LatencySample>, ReceiveError> {
    match sink.on_frame_received(data)? {
        None => Ok(None),
        Some(image) => Ok(sink.on_frame_scanned(&scan(image), now_ms)),
    }
}

fn descriptor(width: u32, height: u32) -> FormatDescriptor {
    FormatDescriptor {
        pixel_format: PixelFormat::Rgb24,
        width,
        height,
        frame_rate: Rational::from_integer(30),
    }
}

#[test]
fn latency_is_elapsed_time() {
    assert_eq!(latency_ms(1_100, 1_000), 100);
    assert_eq!(latency_ms(1_000, 1_000), 0);
    assert_eq!(latency_ms(1, 0), 1);
}

#[test]
fn latency_of_a_stamp_from_the_future_is_zero() {
    assert_eq!(latency_ms(1_000, 1_001), 0);
    assert_eq!(latency_ms(0, u128::MAX), 0);
}

#[test]
fn latency_is_capped_at_64_bits() {
    assert_eq!(latency_ms(i64::MAX as u128, 0), i64::MAX);
    assert_eq!(latency_ms(i64::MAX as u128 + 1, 0), i64::MAX);
    assert_eq!(latency_ms(u128::MAX, 0), i64::MAX);
    assert_eq!(latency_ms(u128::MAX, u128::MAX - 5), 5);
}

#[test]
fn sample_holds_format_and_latency() {
    let format = descriptor(100, 100).parse().unwrap();
    let sample = LatencySample::new(format, 2_000, 1_500);
    assert_eq!(sample.get_format(), format);
    assert_eq!(sample.latency_ms(), 500);
    assert!(LatencySample::new(format, 0, 9).latency_ms() >= 0);
}

#[test]
fn every_decode_miss_gives_no_sample() {
    let format = descriptor(100, 100).parse().unwrap();
    for miss in [
        DecodeError::NoCodeFound,
        DecodeError::ValueParseError,
        DecodeError::MultipleAmbiguous,
    ] {
        assert!(sample_for(format, Err(miss), 1_000).is_none());
    }
    let sample = sample_for(format, Ok(400), 1_000).unwrap();
    assert_eq!(sample.latency_ms(), 600);
    assert_eq!(sample.get_format(), format);
}

#[test]
fn sink_negotiation_refuses_unreadable_descriptors() {
    let mut sink = ProbeSink::new();
    let mut broken = descriptor(100, 100);
    broken.frame_rate = Rational { numer: 30, denom: 0 };
    assert_eq!(sink.negotiate(&broken), Err(NegotiationError::InvalidFormat));
    assert_eq!(sink.negotiated_format(), None);
    assert_eq!(sink.negotiate(&descriptor(320, 240)), Ok(()));
    assert_eq!(sink.negotiated_format(), descriptor(320, 240).parse().ok());
    assert_eq!(sink.negotiate(&broken), Err(NegotiationError::InvalidFormat));
    assert_eq!(sink.negotiated_format(), descriptor(320, 240).parse().ok());
}

#[test]
fn frame_before_negotiation_is_dropped() {
    let sink = ProbeSink::new();
    let frame = encode(123, 100).into_data();
    assert!(take_in(&sink, frame, 200).unwrap().is_none());
    assert!(take_in(&sink, vec![1, 2, 3], 200).unwrap().is_none());
}

#[test]
fn frame_of_wrong_size_is_an_error() {
    let mut sink = ProbeSink::new();
    sink.negotiate(&descriptor(100, 100)).unwrap();
    assert_eq!(
        take_in(&sink, vec![0u8; 29_999], 0).err(),
        Some(ReceiveError::FrameSizeMismatch)
    );
    assert_eq!(
        take_in(&sink, vec![0u8; 30_001], 0).err(),
        Some(ReceiveError::FrameSizeMismatch)
    );
    assert_eq!(
        take_in(&sink, Vec::new(), 0).err(),
        Some(ReceiveError::FrameSizeMismatch)
    );
}

#[test]
fn frame_without_code_is_dropped() {
    let mut sink = ProbeSink::new();
    sink.negotiate(&descriptor(100, 100)).unwrap();
    assert!(take_in(&sink, vec![255u8; 30_000], 0).unwrap().is_none());
    assert!(take_in(&sink, vec![0u8; 30_000], 0).unwrap().is_none());
}

#[test]
fn frame_with_stamp_gives_one_sample() {
    let mut sink = ProbeSink::new();
    sink.negotiate(&descriptor(150, 150)).unwrap();
    let frame = encode(1_700_000_000_000, 150).into_data();
    let sample = take_in(&sink, frame, 1_700_000_000_042).unwrap().unwrap();
    assert_eq!(sample.latency_ms(), 42);
    assert_eq!(Some(sample.get_format()), sink.negotiated_format());
}

#[test]
fn frame_stamped_in_the_future_reports_zero() {
    let mut sink = ProbeSink::new();
    sink.negotiate(&descriptor(100, 100)).unwrap();
    let frame = encode(5_000, 100).into_data();
    let sample = take_in(&sink, frame, 4_000).unwrap().unwrap();
    assert_eq!(sample.latency_ms(), 0);
}

#[test]
fn sink_with_empty_format_finds_no_code() {
    let mut sink = ProbeSink::new();
    sink.negotiate(&descriptor(0, 0)).unwrap();
    assert!(take_in(&sink, Vec::new(), 7).unwrap().is_none());
    sink.negotiate(&descriptor(0, 5)).unwrap();
    assert!(take_in(&sink, Vec::new(), 7).unwrap().is_none());
}

#[test]
fn received_frame_gives_the_image_to_scan() {
    let mut sink = ProbeSink::new();
    sink.negotiate(&descriptor(100, 100)).unwrap();
    let image = sink.on_frame_received(vec![255u8; 30_000]).unwrap().unwrap();
    assert_eq!((image.get_width(), image.get_height()), (100, 100));
    assert_eq!(image.data(), &vec![255u8; 10_000]);
    sink.negotiate(&descriptor(1_000, 900)).unwrap();
    let image = sink.on_frame_received(vec![0u8; 2_700_000]).unwrap().unwrap();
    assert_eq!((image.get_width(), image.get_height()), (500, 450));
    assert_eq!(image.data(), &vec![0u8; 225_000]);
}

#[test]
fn scanned_frame_gives_a_sample_for_one_legible_timestamp() {
    let mut sink = ProbeSink::new();
    let found = vec![None, Some("1000".to_string())];
    assert!(sink.on_frame_scanned(&found, 1_250).is_none());
    sink.negotiate(&descriptor(100, 100)).unwrap();
    let sample = sink.on_frame_scanned(&found, 1_250).unwrap();
    assert_eq!(sample.latency_ms(), 250);
    assert_eq!(Some(sample.get_format()), sink.negotiated_format());
    assert_eq!(sink.on_frame_scanned(&found, 900).unwrap().latency_ms(), 0);
    assert!(sink.on_frame_scanned(&Vec::new(), 1_250).is_none());
    assert!(sink.on_frame_scanned(&vec![None], 1_250).is_none());
    assert!(sink.on_frame_scanned(&vec![Some("soon".to_string())], 1_250).is_none());
    let twice = vec![Some("1000".to_string()), Some("1000".to_string())];
    assert!(sink.on_frame_scanned(&twice, 1_250).is_none());
}
