use std::collections::VecDeque;

use gstqrtimestamp::analyzer::{summarize, LatencyAnalyzer};
use gstqrtimestamp::codec::GreyImage;
use gstqrtimestamp::format::{FormatDescriptor, NegotiatedFormat, PixelFormat};
use gstqrtimestamp::pacer::{ClockSignal, WaitStep};
use gstqrtimestamp::sink::{LatencySample, ProbeSink};
use gstqrtimestamp::source::{ProbeSource, ProduceError, DEFAULT_FPS, DEFAULT_SIZE};
use gstqrtimestamp::timeline::Rational;
use gstqrtimestamp::MAXIMUM_FPS;

struct Run {
    sent: Vec<NegotiatedFormat>,
    received: Vec<LatencySample>,
}

const EPOCH_US: u128 = 1_700_000_000_000_000;
const BASE_TIME: u64 = 5_000_000_000;
/// What stamping one frame is taken to cost on the simulated wall clock.
const ENCODE_COST_US: u128 = 900;

/// Looks for codes in a grey image: one entry for each grid detected, its
/// text where it decodes.
fn scan(image: GreyImage) -> Vec<Option<String>> {
    let width = image.get_width();
    let height = image.get_height();
    let picture = image::GrayImage::from_raw(width, height, image.into_data()).unwrap();
    let mut prepared = rqrr::PreparedImage::prepare(picture);
    let grids = prepared.detect_grids();
    grids.iter().map(|grid| grid.decode().ok().map(|(_, text)| text)).collect()
}

/// Takes a frame in as an element would: receive, scan, report.
fn take_in(sink: &ProbeSink, data: Vec<u8>, now_ms: u128) -> Option<LatencySample> {
    let image = sink.on_frame_received(data).unwrap()?;
    sink.on_frame_scanned(&scan(image), now_ms)
}

fn wall_us(clock: u64) -> u128 {
    EPOCH_US + ((clock - BASE_TIME) / 1_000) as u128
}

/// A source, a queue that holds back `queued` frames, and a sink, driven by
/// a clock that jumps to each deadline.
fn run_pipeline(fps: i32, buffers: u64, queued: usize) -> Run {
    let descriptor = FormatDescriptor {
        pixel_format: PixelFormat::Rgb24,
        width: DEFAULT_SIZE,
        height: DEFAULT_SIZE,
        frame_rate: Rational::from_integer(fps),
    };
    let mut source = ProbeSource::new();
    let mut sink = ProbeSink::new();
    source.set_frame_limit(Some(buffers));
    source.start();
    source.negotiate(&descriptor).unwrap();
    sink.negotiate(&descriptor).unwrap();

    let mut run = Run { sent: Vec::new(), received: Vec::new() };
    let mut clock = BASE_TIME;
    let mut queue: VecDeque<Vec<u8>> = VecDeque::new();
    loop {
        let started_us = wall_us(clock);
        assert!(source.check_has_room());
        let frame = match source.prepare_frame(started_us, started_us / 1_000) {
            Ok(frame) => frame,
            Err(ProduceError::Exhausted) => break,
            Err(other) => panic!("unexpected {:?}", other),
        };
        source.record_encode_cost(started_us, started_us + ENCODE_COST_US);
        let outcome = match source.pace(Some(BASE_TIME)) {
            WaitStep::Done(outcome) => outcome,
            WaitStep::Block(deadline) => {
                assert!(deadline >= clock);
                clock = deadline;
                source.wait_ended(ClockSignal::Reached)
            }
        };
        let announced = source.conclude(outcome).unwrap();
        run.sent.push(announced.unwrap());
        queue.push_back(frame.pixels.into_data());
        if queue.len() > queued {
            let data = queue.pop_front().unwrap();
            if let Some(sample) = take_in(&sink, data, wall_us(clock) / 1_000) {
                run.received.push(sample);
            }
        }
    }
    while let Some(data) = queue.pop_front() {
        if let Some(sample) = take_in(&sink, data, wall_us(clock) / 1_000) {
            run.received.push(sample);
        }
    }
    run
}

#[test]
fn diff_test_main() {
    let fps = 100;
    let queue_buffers = 10;
    let minimum_test_buffers = 100;
    let buffers = 1 + minimum_test_buffers + queue_buffers;
    let run = run_pipeline(fps, buffers as u64, queue_buffers);
    assert_eq!(run.received.len(), 111);

    let mut analyzer = LatencyAnalyzer::new();
    for sample in &run.received {
        analyzer.record(sample);
    }
    let latencies = analyzer.steady_state(queue_buffers);
    assert_eq!(latencies.len(), 100);
    let jitters: Vec<i64> = latencies.windows(2).map(|pair| pair[1] - pair[0]).collect();

    let expected_latency = (queue_buffers as i64) * 1_000 / (fps as i64);
    let expected_max_jitter = 1;
    assert_eq!(expected_latency, 100);

    let latency = summarize(&latencies).unwrap();
    let jitter = summarize(&jitters).unwrap();
    let count = latency.count as i128;
    assert!(latency.sum >= ((expected_latency - expected_max_jitter) as i128) * count);
    assert!(latency.sum <= ((expected_latency + expected_max_jitter) as i128) * count);
    assert!(latency.max <= expected_latency + expected_max_jitter);
    assert!(jitter.sum <= (expected_max_jitter as i128) * (jitter.count as i128));
    assert!(jitter.max <= expected_max_jitter);
    assert!(analyzer.check_steady(expected_latency, expected_max_jitter, queue_buffers));

    assert_eq!(latencies, vec![100; 100]);
    let tail: Vec<i64> = analyzer.latencies()[101..].to_vec();
    assert_eq!(tail, vec![90, 80, 70, 60, 50, 40, 30, 20, 10, 0]);
}

#[test]
fn info_test_main() {
    let buffers = 10;
    let run = run_pipeline(MAXIMUM_FPS, buffers, 0);
    assert_eq!(run.sent.len(), 10);
    assert_eq!(run.received.len(), 10);
    let all_same = !run
        .received
        .iter()
        .zip(run.sent.iter())
        .any(|(received, sent)| !received.get_format().eq(sent));
    assert!(all_same);
    assert_eq!(run.sent[0].frame_rate, Rational::from_integer(240));
}

#[test]
fn diff_test() {
    let buffers = 100;
    let run = run_pipeline(DEFAULT_FPS, buffers, 0);
    let diffs: Vec<i64> = run.received.iter().map(|sample| sample.latency_ms()).collect();
    assert_eq!(diffs.len(), 100);
    let all_zeros = !diffs.iter().skip(1).any(|diff| diff.ne(&0i64));
    assert!(all_zeros, "{diffs:#?}");
    assert_eq!(diffs[0], 33);
}

#[test]
fn info_test() {
    let buffers = 100;
    let run = run_pipeline(DEFAULT_FPS, buffers, 0);
    assert_eq!(run.sent.len(), 100);
    assert_eq!(run.received.len(), 100);
    let all_same = !run
        .received
        .iter()
        .zip(run.sent.iter())
        .any(|(received, sent)| !received.get_format().eq(sent));
    assert!(all_same);
}

#[test]
fn every_produced_frame_is_read_back_with_its_stamp() {
    let run = run_pipeline(60, 20, 3);
    assert_eq!(run.received.len(), 20);
    for sample in &run.received {
        assert!(sample.latency_ms() >= 0);
    }
}
