use rx888_stream::measure::{report_due, Measurement, Rate, WINDOW};
use rx888_stream::samples::{apply, apply_to_bytes, derandomize};
use rx888_stream::stream::{
    poll_outcome, samples_in, Action, Delivery, Phase, PollOutcome, StreamError, StreamLoop,
    NUM_TRANSFERS,
};

#[test]
fn odd_sample_is_inverted() {
    assert_eq!(derandomize(0x0001), 0xFFFF);
    assert_eq!(derandomize(0x1235), 0x1235 ^ 0xFFFE);
}

#[test]
fn even_sample_is_kept() {
    assert_eq!(derandomize(0x0002), 0x0002);
    assert_eq!(derandomize(0), 0);
}

#[test]
fn transform_twice_restores_buffer() {
    let orig: Vec<u16> = (0..1000u32).map(|i| (i * 7919 % 65536) as u16).collect();
    let mut buf = orig.clone();
    apply(&mut buf);
    assert_ne!(buf, orig);
    apply(&mut buf);
    assert_eq!(buf, orig);
}

#[test]
fn transform_on_bytes_matches_samples() {
    let samples: Vec<u16> = vec![0x0001, 0x0002, 0xABCD, 0x1234, 0xFFFF];
    let mut bytes: Vec<u8> = samples.iter().flat_map(|s| s.to_le_bytes()).collect();
    bytes.push(0x55);
    apply_to_bytes(&mut bytes);
    let mut expect = samples.clone();
    apply(&mut expect);
    for (i, s) in expect.iter().enumerate() {
        assert_eq!(u16::from_le_bytes([bytes[2 * i], bytes[2 * i + 1]]), *s);
    }
    assert_eq!(bytes[10], 0x55);
    assert_eq!(&bytes[0..2], &[0xFF, 0xFF]);
}

#[test]
fn rate_is_none_while_empty() {
    let m = Measurement::new();
    assert_eq!(m.current_rate(), None);
    assert_eq!(m.len(), 0);
}

#[test]
fn rate_sums_the_window() {
    let mut m = Measurement::new();
    m.record(1_000, 65536);
    m.record(3_000, 65536);
    assert_eq!(m.current_rate(), Some(Rate { samples: 131072, nanos: 4_000 }));
}

#[test]
fn window_keeps_the_latest_entries() {
    let mut m = Measurement::new();
    for i in 0..(WINDOW as u64 + 6) {
        m.record(i + 1, 2 * i);
        assert!(m.len() <= WINDOW);
    }
    assert_eq!(m.len(), WINDOW);
    // entries 6 ..= 1029 remain
    let samples: u128 = (6..(WINDOW as u128 + 6)).map(|i| 2 * i).sum();
    let nanos: u128 = (6..(WINDOW as u128 + 6)).map(|i| i + 1).sum();
    assert_eq!(m.current_rate(), Some(Rate { samples, nanos }));
}

#[test]
fn add_packet_counts_samples() {
    let mut m = Measurement::new();
    m.add_packet(65536);
    m.add_packet(100);
    assert_eq!(m.len(), 2);
    assert_eq!(m.current_rate().unwrap().samples, 65636);
    assert!(m.maybe_display(0));
}

#[test]
fn large_counts_do_not_overflow() {
    let mut m = Measurement::new();
    for _ in 0..WINDOW + 3 {
        m.record(u64::MAX, u64::MAX);
    }
    let expect = (WINDOW as u128) * (u64::MAX as u128);
    assert_eq!(m.current_rate(), Some(Rate { samples: expect, nanos: expect }));
}

#[test]
fn samples_per_buffer() {
    assert_eq!(samples_in(131072), 65536);
    assert_eq!(samples_in(3), 1);
}

fn prime(s: &mut StreamLoop, n: usize) {
    for _ in 0..n {
        assert_eq!(s.next_action(false), Action::Submit);
        assert_eq!(s.on_submit(true), Ok(()));
    }
}

#[test]
fn priming_fills_the_pool() {
    let mut s = StreamLoop::new(NUM_TRANSFERS, false, false, true);
    prime(&mut s, NUM_TRANSFERS);
    assert_eq!(s.outstanding_count(), NUM_TRANSFERS);
    assert_eq!(s.next_action(false), Action::Poll);
    assert_eq!(s.phase(), Phase::Running);
}

#[test]
fn completed_buffer_is_handled_and_resubmitted() {
    let mut s = StreamLoop::new(4, true, false, true);
    prime(&mut s, 4);
    assert_eq!(s.next_action(false), Action::Poll);
    assert_eq!(
        s.on_poll(PollOutcome::Completed),
        Ok(Some(Delivery { transform: true, write: true, record: false }))
    );
    assert_eq!(s.outstanding_count(), 3);
    // the flag is not looked at while a buffer is held
    assert_eq!(s.next_action(true), Action::Resubmit);
    assert_eq!(s.on_submit(true), Ok(()));
    assert_eq!(s.outstanding_count(), 4);
}

#[test]
fn without_sink_the_rate_is_recorded() {
    let mut s = StreamLoop::new(1, false, false, false);
    prime(&mut s, 1);
    assert_eq!(s.next_action(false), Action::Poll);
    assert_eq!(
        s.on_poll(PollOutcome::Completed),
        Ok(Some(Delivery { transform: false, write: false, record: true }))
    );
}

#[test]
fn timeout_is_not_fatal() {
    let mut s = StreamLoop::new(2, false, true, true);
    prime(&mut s, 2);
    assert_eq!(s.next_action(false), Action::Poll);
    assert_eq!(s.on_poll(PollOutcome::Timeout), Ok(None));
    assert_eq!(s.outstanding_count(), 2);
    assert_eq!(s.next_action(false), Action::Poll);
}

#[test]
fn failures_while_running_are_fatal() {
    let mut s = StreamLoop::new(2, false, true, true);
    prime(&mut s, 2);
    assert_eq!(s.next_action(false), Action::Poll);
    assert_eq!(s.on_poll(PollOutcome::Failed), Err(StreamError::TransferFailed));
    let mut s = StreamLoop::new(2, false, true, true);
    assert_eq!(s.next_action(false), Action::Submit);
    assert_eq!(s.on_submit(false), Err(StreamError::SubmitFailed));
    assert_eq!(s.outstanding_count(), 0);
}

#[test]
fn cancel_then_drain_reaches_zero() {
    let mut s = StreamLoop::new(3, false, false, true);
    prime(&mut s, 3);
    assert_eq!(s.next_action(false), Action::Poll);
    assert_eq!(s.next_action(true), Action::CancelAll);
    assert_eq!(s.phase(), Phase::Draining);
    assert_eq!(s.next_action(true), Action::Poll);
    assert_eq!(s.on_poll(PollOutcome::Failed), Ok(None));
    assert_eq!(s.next_action(true), Action::Poll);
    assert_eq!(s.on_poll(PollOutcome::Timeout), Ok(None));
    assert_eq!(s.next_action(true), Action::Poll);
    assert_eq!(s.on_poll(PollOutcome::Completed), Ok(None));
    assert_eq!(s.next_action(true), Action::Poll);
    assert_eq!(s.on_poll(PollOutcome::Failed), Ok(None));
    assert_eq!(s.outstanding_count(), 0);
    assert_eq!(s.next_action(true), Action::Shutdown);
    assert_eq!(s.phase(), Phase::Stopped);
    assert_eq!(s.next_action(true), Action::Finish);
}

#[test]
fn outstanding_never_exceeds_capacity() {
    let mut s = StreamLoop::new(5, true, true, false);
    let mut step: u32 = 0;
    while step < 500 {
        let a = s.next_action(step > 450);
        match a {
            Action::Submit | Action::Resubmit => s.on_submit(true).unwrap(),
            Action::Poll => {
                let outcome = match step % 3 {
                    0 => PollOutcome::Completed,
                    1 => PollOutcome::Timeout,
                    _ => PollOutcome::Completed,
                };
                s.on_poll(outcome).unwrap();
            }
            Action::CancelAll => {}
            Action::Shutdown | Action::Finish => break,
        }
        assert!(s.outstanding_count() <= 5);
        step += 1;
    }
    assert_eq!(s.outstanding_count(), 0);
    assert_eq!(s.phase(), Phase::Stopped);
}

#[test]
fn report_is_due_once_the_interval_has_passed() {
    assert!(!report_due(999_999_999, 1_000_000_000));
    assert!(report_due(1_000_000_000, 1_000_000_000));
    assert!(report_due(5_000_000_000, 1_000_000_000));
}

#[test]
fn poll_outcome_from_pending_counts() {
    assert_eq!(poll_outcome(true, 3, 2), PollOutcome::Completed);
    assert_eq!(poll_outcome(false, 0, 0), PollOutcome::NothingPending);
    assert_eq!(poll_outcome(false, 3, 3), PollOutcome::Timeout);
    assert_eq!(poll_outcome(false, 3, 2), PollOutcome::Failed);
}

#[test]
fn cancel_right_after_priming_goes_to_draining() {
    let mut s = StreamLoop::new(2, false, false, true);
    prime(&mut s, 2);
    assert_eq!(s.next_action(true), Action::CancelAll);
    assert_eq!(s.phase(), Phase::Draining);
}

#[test]
fn completed_with_nothing_counted_is_fatal() {
    let mut s = StreamLoop::new(0, false, false, true);
    assert_eq!(s.next_action(false), Action::Poll);
    assert_eq!(s.on_poll(PollOutcome::Completed), Err(StreamError::NothingPending));
}

#[test]
fn byte_transform_twice_restores_buffer() {
    let orig: Vec<u8> = (0..1001u32).map(|i| ((i * 7 + 1) % 256) as u8).collect();
    let mut buf = orig.clone();
    apply_to_bytes(&mut buf);
    assert_ne!(buf, orig);
    apply_to_bytes(&mut buf);
    assert_eq!(buf, orig);
}

#[test]
fn zero_interval_always_reports() {
    let mut m = Measurement::new();
    assert!(m.maybe_display(0));
    assert!(m.maybe_display(0));
}
