use simulator::request::Request;
use simulator::sched::Scheduler;
use simulator::sjf_sched::ShortestJF;

fn cost(value: f64) -> u64 {
    value.to_bits()
}

#[test]
fn new_policy_is_idle() {
    let mut sched = ShortestJF::new();
    assert!(sched.pick_next_task(0).is_none());
    assert!(sched.pick_next_task(17).is_none());
}

#[test]
fn request_new_keeps_its_arguments() {
    let req = Request::new(7, 123456, cost(2.5));
    assert_eq!(req.tenant_id, 7);
    assert_eq!(req.arrival_timestamp, 123456);
    assert_eq!(f64::from_bits(req.task_cost), 2.5);
    assert_eq!(
        req,
        Request { tenant_id: 7, arrival_timestamp: 123456, task_cost: cost(2.5) }
    );
}

#[test]
fn two_arrivals_leave_in_arrival_order() {
    let mut sched = ShortestJF::new();
    sched.create_task(0, cost(1.0), 5);
    sched.create_task(1, cost(2.0), 6);
    let first = sched.pick_next_task(2).unwrap();
    assert_eq!(first.tenant_id, 5);
    let second = sched.pick_next_task(2).unwrap();
    assert_eq!(second.tenant_id, 6);
    assert!(sched.pick_next_task(2).is_none());
}

#[test]
fn fresh_request_overtakes_returning_one() {
    let mut sched = ShortestJF::new();
    sched.create_task(0, cost(1.0), 1);
    let it = sched.pick_next_task(0).unwrap();
    assert_eq!(it.tenant_id, 1);
    sched.enqueue_task(it);
    sched.create_task(1, cost(1.0), 2);
    let next = sched.pick_next_task(1).unwrap();
    assert_eq!(next.tenant_id, 2);
    let last = sched.pick_next_task(1).unwrap();
    assert_eq!(last.tenant_id, 1);
    assert_eq!(last.arrival_timestamp, 0);
    assert!(sched.pick_next_task(1).is_none());
}

#[test]
fn many_arrivals_leave_first_in_first_out() {
    let mut sched = ShortestJF::new();
    for i in 0..500u64 {
        // Costs fall while arrival times rise: the cost must not reorder.
        sched.create_task(i, cost(1000.0 - i as f64), (i % 7) as u16);
    }
    for i in 0..500u64 {
        let req = sched.pick_next_task(0).unwrap();
        assert_eq!(
            *req,
            Request {
                tenant_id: (i % 7) as u16,
                arrival_timestamp: i,
                task_cost: cost(1000.0 - i as f64),
            }
        );
    }
    assert!(sched.pick_next_task(0).is_none());
}

#[test]
fn cost_does_not_order_the_fresh_tier() {
    let mut sched = ShortestJF::new();
    sched.create_task(0, cost(100.0), 1);
    sched.create_task(1, cost(1.0), 2);
    assert_eq!(sched.pick_next_task(0).unwrap().tenant_id, 1);
    assert_eq!(sched.pick_next_task(0).unwrap().tenant_id, 2);
}

#[test]
fn clock_reading_does_not_change_the_choice() {
    let mut early = ShortestJF::new();
    let mut late = ShortestJF::new();
    for sched in [&mut early, &mut late] {
        sched.create_task(10, cost(1.0), 3);
        sched.enqueue_task(Box::new(Request::new(4, 2, cost(9.0))));
        sched.create_task(11, cost(1.0), 5);
    }
    for _ in 0..4 {
        assert_eq!(early.pick_next_task(0), late.pick_next_task(u64::MAX));
    }
}

#[test]
fn returning_tier_is_never_served_before_fresh_tier() {
    let mut sched = ShortestJF::new();
    sched.enqueue_task(Box::new(Request::new(100, 0, cost(1.0))));
    sched.enqueue_task(Box::new(Request::new(101, 1, cost(1.0))));
    sched.create_task(2, cost(1.0), 1);
    sched.enqueue_task(Box::new(Request::new(102, 3, cost(1.0))));
    sched.create_task(4, cost(1.0), 2);
    let order: Vec<u16> =
        (0..5).map(|_| sched.pick_next_task(0).unwrap().tenant_id).collect();
    assert_eq!(order, vec![1, 2, 100, 101, 102]);
}

#[test]
fn returning_tier_is_first_in_first_out() {
    let mut sched = ShortestJF::new();
    for i in 0..50u16 {
        sched.enqueue_task(Box::new(Request::new(i, 1000 - i as u64, cost(i as f64))));
    }
    for i in 0..50u16 {
        let req = sched.pick_next_task(0).unwrap();
        assert_eq!(req.tenant_id, i);
    }
    assert!(sched.pick_next_task(0).is_none());
}

#[test]
fn resubmitted_request_comes_out_once_fresh_tier_is_empty() {
    let mut sched = ShortestJF::new();
    sched.create_task(0, cost(1.0), 1);
    sched.create_task(1, cost(1.0), 2);
    sched.create_task(2, cost(1.0), 3);
    let it = sched.pick_next_task(0).unwrap();
    sched.enqueue_task(it);
    // Two fresh requests are held before it; it is the third to leave.
    assert_eq!(sched.pick_next_task(0).unwrap().tenant_id, 2);
    assert_eq!(sched.pick_next_task(0).unwrap().tenant_id, 3);
    assert_eq!(sched.pick_next_task(0).unwrap().tenant_id, 1);
    assert!(sched.pick_next_task(0).is_none());
}

#[test]
fn round_trip_keeps_every_field() {
    let mut sched = ShortestJF::new();
    let odd_cost = f64::NAN.to_bits() | 0xabc;
    sched.create_task(u64::MAX, odd_cost, u16::MAX);
    let out = sched.pick_next_task(0).unwrap();
    assert_eq!(
        *out,
        Request { tenant_id: u16::MAX, arrival_timestamp: u64::MAX, task_cost: odd_cost }
    );
    sched.enqueue_task(out);
    let again = sched.pick_next_task(0).unwrap();
    assert_eq!(
        *again,
        Request { tenant_id: u16::MAX, arrival_timestamp: u64::MAX, task_cost: odd_cost }
    );
    sched.enqueue_task(again);
    let third = sched.pick_next_task(0).unwrap();
    assert_eq!(third.tenant_id, u16::MAX);
    assert_eq!(third.arrival_timestamp, u64::MAX);
    assert_eq!(third.task_cost, odd_cost);
}

#[test]
fn returning_request_starves_under_steady_arrivals() {
    let mut sched = ShortestJF::new();
    sched.create_task(0, cost(1.0), 999);
    let victim = sched.pick_next_task(0).unwrap();
    sched.enqueue_task(victim);
    for i in 1..=10000u64 {
        sched.create_task(i, cost(1.0), (i % 100) as u16);
        let req = sched.pick_next_task(i).unwrap();
        assert_ne!(req.tenant_id, 999);
        assert_eq!(req.arrival_timestamp, i);
    }
    // The stream stops: only now the waiting request is served.
    let req = sched.pick_next_task(10001).unwrap();
    assert_eq!(req.tenant_id, 999);
    assert!(sched.pick_next_task(10001).is_none());
}

#[test]
fn no_request_is_lost_or_handed_out_twice() {
    let mut sched = ShortestJF::new();
    let mut held = 0u32;
    let mut handed_out = Vec::new();
    for round in 0..200u64 {
        sched.create_task(round, cost(1.0), round as u16);
        held += 1;
        if round % 3 == 0 {
            let req = sched.pick_next_task(round).unwrap();
            held -= 1;
            if round % 2 == 0 {
                sched.enqueue_task(req);
                held += 1;
            } else {
                handed_out.push(req.tenant_id);
            }
        }
    }
    while let Some(req) = sched.pick_next_task(0) {
        held -= 1;
        handed_out.push(req.tenant_id);
    }
    assert_eq!(held, 0);
    handed_out.sort();
    let expected: Vec<u16> = (0..200).collect();
    assert_eq!(handed_out, expected);
}

fn drain<S: Scheduler>(sched: &mut S) -> Vec<u16> {
    let mut out = Vec::new();
    while let Some(req) = sched.pick_next_task(0) {
        out.push(req.tenant_id);
    }
    out
}

#[test]
fn policy_serves_through_the_capability() {
    let mut sched = ShortestJF::new();
    sched.enqueue_task(Box::new(Request::new(9, 0, cost(1.0))));
    sched.create_task(1, cost(1.0), 8);
    assert_eq!(drain(&mut sched), vec![8, 9]);
    assert_eq!(drain(&mut sched), Vec::<u16>::new());
}
