use simulator::latency::LatencySummary;
use simulator::receiver::Receiver;
use simulator::receiver::Report;
use simulator::receiver::PROGRESS_INTERVAL;
use simulator::receiver::WARMUP_RESPONSES;
use simulator::timestamp::encode_timestamp;

#[test]
fn receiver_constants() {
    assert_eq!(WARMUP_RESPONSES, 2 * 1000 * 1000);
    assert_eq!(PROGRESS_INTERVAL, 1000000);
}

#[test]
fn receiver_counts_until_done() {
    let mut receiver = Receiver::new(3, 100, false);
    assert!(!receiver.is_done());
    assert_eq!(receiver.received(), 0);
    for i in 1..=3 {
        assert!(!receiver.measures_next());
        assert!(!receiver.on_response(&encode_timestamp(200), 300));
        assert_eq!(receiver.received(), i);
        assert_eq!(receiver.is_done(), i == 3);
    }
}

#[test]
fn receiver_with_nothing_to_wait_for_is_done() {
    let receiver = Receiver::new(0, 100, true);
    assert!(receiver.is_done());
}

#[test]
fn stop_is_marked_only_when_done() {
    let mut receiver = Receiver::new(2, 100, false);
    receiver.mark_stop(111);
    receiver.on_response(&encode_timestamp(1), 2);
    receiver.mark_stop(222);
    receiver.on_response(&encode_timestamp(1), 2);
    receiver.mark_stop(900);
    assert_eq!(receiver.report(), Report { received: 2, elapsed: 800, latency: None });
}

#[test]
fn stop_follows_the_last_mark() {
    let mut receiver = Receiver::new(1, 100, false);
    receiver.on_response(&encode_timestamp(1), 2);
    receiver.mark_stop(500);
    receiver.mark_stop(700);
    assert_eq!(receiver.report().elapsed, 600);
}

#[test]
fn unmarked_receiver_started_at_zero_reports_nothing_elapsed() {
    let mut receiver = Receiver::new(5, 0, false);
    receiver.on_response(&encode_timestamp(1), 2);
    receiver.mark_stop(50);
    assert_eq!(receiver.report(), Report { received: 1, elapsed: 0, latency: None });
}

#[test]
fn worker_that_is_no_master_records_nothing() {
    let total = WARMUP_RESPONSES + 5;
    let mut receiver = Receiver::new(total, 0, false);
    for _ in 0..total {
        assert!(!receiver.measures_next());
        assert!(!receiver.on_response(&encode_timestamp(u64::MAX), 0));
    }
    receiver.mark_stop(10);
    assert_eq!(receiver.report(), Report { received: total, elapsed: 10, latency: None });
}

#[test]
fn master_measures_after_the_warm_up() {
    let total = WARMUP_RESPONSES + 5;
    let mut receiver = Receiver::new(total, 1000, true);
    for _ in 0..WARMUP_RESPONSES {
        assert!(!receiver.measures_next());
        // A stamp after the clock reading: ignored during the warm-up.
        assert!(!receiver.on_response(&encode_timestamp(u64::MAX), 0));
    }
    let latencies = [50u64, 10, 40, 20, 30];
    for (i, latency) in latencies.iter().enumerate() {
        assert!(receiver.measures_next());
        let sent_at = 5000 + i as u64;
        assert!(!receiver.on_response(&encode_timestamp(sent_at), sent_at + latency));
    }
    assert!(receiver.is_done());
    receiver.mark_stop(91000);
    assert_eq!(
        receiver.report(),
        Report {
            received: total,
            elapsed: 90000,
            latency: Some(LatencySummary { median: 30, tail: 50 }),
        }
    );
}

#[test]
fn master_summary_of_even_count() {
    let total = WARMUP_RESPONSES + 4;
    let mut receiver = Receiver::new(total, 0, true);
    for _ in 0..WARMUP_RESPONSES {
        receiver.on_response(&encode_timestamp(0), 0);
    }
    for latency in [40u64, 10, 30, 20] {
        receiver.on_response(&encode_timestamp(7), 7 + latency);
    }
    receiver.mark_stop(1);
    assert_eq!(
        receiver.report().latency,
        Some(LatencySummary { median: 25, tail: 40 })
    );
}

#[test]
fn report_waits_for_stop_and_samples() {
    let mut idle = Receiver::new(1, 100, false);
    // Not stopped yet: the stop reading, zero, lies before the start.
    assert!(!idle.reportable());
    idle.on_response(&encode_timestamp(1), 2);
    idle.mark_stop(100);
    assert!(idle.reportable());

    let mut master = Receiver::new(1, 0, true);
    master.on_response(&encode_timestamp(1), 2);
    master.mark_stop(5);
    // A master that is still warming up has no latency to report.
    assert!(!master.reportable());
}

#[test]
fn master_signals_progress_every_million_after_the_warm_up() {
    let total = 3 * PROGRESS_INTERVAL + 1;
    let mut receiver = Receiver::new(total, 0, true);
    let payload = encode_timestamp(3);
    for count in 1..=total {
        let progress = receiver.on_response(&payload, 5);
        // The two millionth response still belongs to the warm-up.
        assert_eq!(progress, count == 3 * PROGRESS_INTERVAL, "at response {}", count);
    }
    receiver.mark_stop(9);
    let report = receiver.report();
    assert_eq!(report.received, total);
    assert_eq!(report.latency, Some(LatencySummary { median: 2, tail: 2 }));
}
