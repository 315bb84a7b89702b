use simulator::sender::SendStep;
use simulator::sender::Sender;
use simulator::sender::FIRST_TENANT_PORT;

fn is_wait(step: &SendStep) -> bool {
    matches!(step, SendStep::Wait)
}

fn is_done(step: &SendStep) -> bool {
    matches!(step, SendStep::Done)
}

fn sent(step: SendStep) -> (Vec<u8>, u16) {
    match step {
        SendStep::Send { payload, port } => (payload, port),
        SendStep::Wait => panic!("the sender waits"),
        SendStep::Done => panic!("the sender is done"),
    }
}

#[test]
fn first_request_goes_out_at_once() {
    // 1000 cycles a second at 10 requests a second: 100 cycles apart.
    let mut sender = Sender::new(3, 1000, 10, 5000, 1);
    let (payload, port) = sent(sender.dispatch(7, 1500));
    assert_eq!(payload, 7u64.to_le_bytes().to_vec());
    assert_eq!(port, 1500);
}

#[test]
fn later_requests_wait_for_their_deadline() {
    let mut sender = Sender::new(3, 1000, 10, 5000, 1);
    sent(sender.dispatch(5001, 1024));
    // The second request is due at 5000 + 1 * 100.
    assert!(is_wait(&sender.dispatch(5002, 1024)));
    assert!(is_wait(&sender.dispatch(5099, 1024)));
    let (payload, _) = sent(sender.dispatch(5100, 1024));
    assert_eq!(payload, 5100u64.to_le_bytes().to_vec());
    // The third at 5000 + 2 * 100, however late the second was.
    assert!(is_wait(&sender.dispatch(5199, 1024)));
    let (payload, _) = sent(sender.dispatch(7777, 1024));
    assert_eq!(payload, 7777u64.to_le_bytes().to_vec());
    assert!(is_done(&sender.dispatch(5300, 1024)));
    assert!(is_done(&sender.dispatch(u64::MAX, 1024)));
    assert!(sender.is_done());
}

#[test]
fn interval_is_the_quotient_rounded_down() {
    // 1000 / 300 = 3 cycles between requests.
    let mut sender = Sender::new(10, 1000, 300, 0, 1);
    sent(sender.dispatch(0, 1024));
    assert!(is_wait(&sender.dispatch(2, 1024)));
    sent(sender.dispatch(3, 1024));
    assert!(is_wait(&sender.dispatch(5, 1024)));
    sent(sender.dispatch(6, 1024));
}

#[test]
fn sender_with_nothing_to_send_is_done() {
    let mut sender = Sender::new(0, 1000, 10, 5000, 4);
    assert!(sender.is_done());
    assert!(is_done(&sender.poll(0)));
    assert!(is_done(&sender.poll(9999)));
}

#[test]
fn sender_counts_its_requests() {
    let mut sender = Sender::new(5, 1000, 1000, 0, 1);
    let mut count = 0;
    let mut now = 0;
    while !sender.is_done() {
        if let SendStep::Send { payload, .. } = sender.poll(now) {
            assert_eq!(payload, now.to_le_bytes().to_vec());
            count += 1;
        }
        now += 1;
    }
    assert_eq!(count, 5);
    assert!(is_done(&sender.poll(now)));
}

#[test]
fn poll_picks_the_only_tenant() {
    assert_eq!(FIRST_TENANT_PORT, 1024);
    let mut sender = Sender::new(50, 1, 1, 0, 1);
    for now in 0..50 {
        let (_, port) = sent(sender.poll(now));
        assert_eq!(port, 1024);
    }
}

#[test]
fn poll_picks_a_tenant_in_range() {
    let mut sender = Sender::new(2000, 1, 1, 0, 3);
    let mut seen = [false; 3];
    for now in 0..2000 {
        let (payload, port) = sent(sender.poll(now));
        assert_eq!(payload, now.to_le_bytes().to_vec());
        assert!((1024..1027).contains(&port));
        seen[(port - 1024) as usize] = true;
    }
    assert_eq!(seen, [true; 3]);
}

#[test]
fn poll_waits_like_dispatch() {
    let mut sender = Sender::new(2, 100, 1, 1000, 8);
    let (_, port) = sent(sender.poll(1000));
    assert!((1024..1032).contains(&port));
    assert!(is_wait(&sender.poll(1099)));
    sent(sender.poll(1100));
    assert!(is_done(&sender.poll(1200)));
}
