use std::cmp::Ordering;

use clock::vector_clock::{
    next_plan, order_events, pause_millis, plan_step, Event, Message, Node, Plan, VectorClock,
};

fn clock_of(times: &[u64]) -> VectorClock {
    let mut c = VectorClock::new(times.len());
    for (i, t) in times.iter().enumerate() {
        for _ in 0..*t {
            c.tick(i);
        }
    }
    c
}

#[test]
fn new_clock_is_all_zero() {
    let c = VectorClock::new(3);
    assert_eq!(c.read(), &[0, 0, 0]);
    assert_eq!(c.len(), 3);
    assert_eq!(VectorClock::new(0).len(), 0);
}

#[test]
fn tick_advances_one_component() {
    let mut c = VectorClock::new(3);
    c.tick(1);
    assert_eq!(c.read(), &[0, 1, 0]);
    c.tick(1);
    c.tick(2);
    assert_eq!(c.read(), &[0, 2, 1]);
}

#[test]
fn update_merges_then_ticks_own() {
    let mut own = clock_of(&[2, 0, 1]);
    let other = clock_of(&[1, 3, 0]);
    own.update(&other, 0);
    assert_eq!(own.read(), &[3, 3, 1]);
    let mut own = clock_of(&[2, 0, 1]);
    let other = clock_of(&[5, 0, 4]);
    own.update(&other, 1);
    assert_eq!(own.read(), &[5, 1, 4]);
}

#[test]
fn clone_copies_the_times() {
    let c = clock_of(&[4, 0, 2]);
    let d = c.clone();
    assert_eq!(d.read(), &[4, 0, 2]);
    assert!(c == d);
}

#[test]
fn partial_order_cases() {
    let a = clock_of(&[1, 2, 0]);
    let b = clock_of(&[1, 3, 0]);
    let c = clock_of(&[2, 1, 0]);
    assert_eq!(a.partial_cmp(&b), Some(Ordering::Less));
    assert_eq!(b.partial_cmp(&a), Some(Ordering::Greater));
    assert_eq!(a.partial_cmp(&a.clone()), Some(Ordering::Equal));
    assert_eq!(b.partial_cmp(&c), None);
    assert_eq!(c.partial_cmp(&b), None);
    assert!(a < b);
    assert!(b > a);
    assert!(!(b < c) && !(c < b));
}

#[test]
fn comparison_covers_the_common_components() {
    let short = clock_of(&[1, 2]);
    let long = clock_of(&[1, 2, 3]);
    assert_eq!(short.partial_cmp(&long), Some(Ordering::Equal));
    assert!(short != long);
    let long2 = clock_of(&[1, 1, 3]);
    assert_eq!(short.partial_cmp(&long2), Some(Ordering::Greater));
}

#[test]
fn equality_compares_all_components() {
    assert!(clock_of(&[1, 2]) == clock_of(&[1, 2]));
    assert!(clock_of(&[1, 2]) != clock_of(&[2, 1]));
}

#[test]
fn event_records_own_component_and_sum() {
    let c = clock_of(&[2, 5, 1]);
    let e = Event::new(1, &c, String::from("Internal Event"));
    assert_eq!(e.process_id(), 1);
    assert_eq!(e.local_time(), 5);
    assert_eq!(e.clock_sum(), 8);
    assert_eq!(e.clock(), &[2, 5, 1]);
    assert_eq!(e.description(), "Internal Event");
    assert_eq!(e.total_order_key(), (8, 1));
}

#[test]
fn events_are_ordered_by_sum_then_process() {
    let events = vec![
        Event::new(0, &clock_of(&[3, 0]), String::from("a")),
        Event::new(1, &clock_of(&[0, 1]), String::from("b")),
        Event::new(0, &clock_of(&[1, 0]), String::from("c")),
        Event::new(1, &clock_of(&[1, 2]), String::from("d")),
    ];
    let sorted = order_events(events);
    let got: Vec<(u64, usize, String)> = sorted
        .iter()
        .map(|e| (e.clock_sum(), e.process_id(), e.description().to_string()))
        .collect();
    assert_eq!(
        got,
        vec![
            (1, 0, String::from("c")),
            (1, 1, String::from("b")),
            (3, 0, String::from("a")),
            (3, 1, String::from("d")),
        ]
    );
}

#[test]
fn send_and_receive_between_nodes() {
    let mut p0 = Node::new(0, 2, vec![1]);
    let mut p1 = Node::new(1, 2, vec![0]);
    p1.handle_internal_event();
    let (target, stamp) = p0.send_to(0);
    assert_eq!(target, 1);
    assert_eq!(stamp.read(), &[1, 0]);
    let msg = Message::new(0, stamp, String::from("m"));
    assert_eq!(msg.sender_id(), 0);
    assert_eq!(msg.content(), "m");
    let relation = p1.handle_receive_event(&msg);
    assert_eq!(relation, None);
    assert_eq!(p1.clock().read(), &[1, 2]);
    assert_eq!(msg.timestamps().partial_cmp(p1.clock()), Some(Ordering::Less));
}

#[test]
fn receive_reports_happened_before() {
    let mut p0 = Node::new(0, 2, vec![1]);
    let mut p1 = Node::new(1, 2, vec![0]);
    let (_, stamp) = p0.send_to(0);
    let msg = Message::new(0, stamp, String::from("m1"));
    p1.handle_receive_event(&msg);
    // p1 now knows p0's first event; an old stamp is in its past
    let old = Message::new(0, clock_of(&[1, 0]), String::from("m0"));
    assert_eq!(p1.handle_receive_event(&old), Some(Ordering::Less));
    assert_eq!(p1.clock().read(), &[1, 2]);
}

#[test]
fn receive_reports_happened_after_and_identical() {
    let mut p1 = Node::new(1, 2, vec![0]);
    let newer = Message::new(0, clock_of(&[2, 0]), String::from("m"));
    assert_eq!(p1.handle_receive_event(&newer), Some(Ordering::Greater));
    let mut p2 = Node::new(1, 2, vec![0]);
    let same = Message::new(0, clock_of(&[0, 0]), String::from("m"));
    assert_eq!(p2.handle_receive_event(&same), Some(Ordering::Equal));
}

#[test]
fn vector_send_without_peers_does_nothing() {
    let mut n = Node::new(0, 3, vec![]);
    let mut rng = rand::rng();
    assert!(n.handle_send_event(&mut rng).is_none());
    assert_eq!(n.clock().read(), &[0, 0, 0]);
}

#[test]
fn send_goes_to_a_peer_with_the_new_time() {
    let mut n = Node::new(2, 3, vec![0, 1]);
    let mut rng = rand::rng();
    for i in 1..10u64 {
        let (target, stamp) = n.handle_send_event(&mut rng).unwrap();
        assert!(target == 0 || target == 1);
        assert_eq!(stamp.read(), &[0, 0, i]);
    }
    assert_eq!(n.num_peers(), 2);
    assert_eq!(n.id(), 2);
}

#[test]
fn log_event_uses_current_time() {
    let mut n = Node::new(1, 3, vec![]);
    n.handle_internal_event();
    n.handle_internal_event();
    let e = n.log_event(String::from("Internal Event"));
    assert_eq!(e.total_order_key(), (2, 1));
    assert_eq!(e.local_time(), 2);
    assert_eq!(e.clock(), &[0, 2, 0]);
}

#[test]
fn plans_follow_the_step_schedule() {
    assert_eq!(plan_step(9, 4, 0), Plan::Internal(4));
    assert_eq!(plan_step(45, 6, 80), Plan::Internal(6));
    assert_eq!(plan_step(5, 4, 0), Plan::Receive(3));
    assert_eq!(plan_step(10, 4, 99), Plan::Receive(3));
    assert_eq!(plan_step(1, 4, 0), Plan::Receive(1));
    assert_eq!(plan_step(1, 4, 44), Plan::Receive(1));
    assert_eq!(plan_step(2, 4, 45), Plan::Internal(1));
    assert_eq!(plan_step(2, 4, 69), Plan::Internal(1));
    assert_eq!(plan_step(3, 4, 70), Plan::Send);
    assert_eq!(plan_step(3, 4, 99), Plan::Send);
}

#[test]
fn drawn_plans_stay_in_range() {
    let mut rng = rand::rng();
    for _ in 0..200 {
        match next_plan(9, &mut rng) {
            Plan::Internal(n) => assert!((3..7).contains(&n)),
            other => panic!("unexpected plan {:?}", other),
        }
        assert_eq!(next_plan(10, &mut rng), Plan::Receive(3));
        match next_plan(7, &mut rng) {
            Plan::Receive(1) | Plan::Internal(1) | Plan::Send => {}
            other => panic!("unexpected plan {:?}", other),
        }
        let ms = pause_millis(&mut rng);
        assert!((10..50).contains(&ms));
    }
}

#[test]
fn own_component_counts_own_events_in_a_run() {
    // three processes; a fixed schedule of internal, send and receive events
    let mut nodes: Vec<Node> = (0..3).map(|i| Node::new(i, 3, vec![])).collect();
    let mut counts = [0u64; 3];
    let mut mailbox: Vec<(usize, VectorClock)> = Vec::new();
    let schedule: [(usize, u8); 12] = [
        (0, 0), (1, 1), (0, 1), (2, 2), (2, 0), (1, 2),
        (2, 1), (0, 2), (0, 2), (1, 0), (1, 1), (2, 2),
    ];
    for (p, kind) in schedule {
        match kind {
            0 => nodes[p].handle_internal_event(),
            1 => {
                nodes[p].handle_internal_event();
                mailbox.push(((p + 1) % 3, nodes[p].clock().clone()));
            }
            _ => {
                let Some(pos) = mailbox.iter().position(|(dest, _)| *dest == p) else {
                    continue;
                };
                let (_, stamp) = mailbox.remove(pos);
                let msg = Message::new(0, stamp, String::new());
                let before = nodes[p].clock().clone();
                nodes[p].handle_receive_event(&msg);
                assert!(before < *nodes[p].clock());
                assert!(*msg.timestamps() < *nodes[p].clock());
            }
        }
        counts[p] += 1;
        for j in 0..3 {
            for i in 0..3 {
                assert!(nodes[j].clock().read()[i] <= nodes[i].clock().read()[i]);
            }
        }
    }
    for i in 0..3 {
        assert_eq!(nodes[i].clock().read()[i], counts[i]);
    }
}

#[test]
fn causally_later_events_have_larger_keys() {
    let mut p0 = Node::new(0, 2, vec![1]);
    let mut p1 = Node::new(1, 2, vec![0]);
    let (_, stamp) = p0.send_to(0);
    let send_event = p0.log_event(String::from("send"));
    p1.handle_receive_event(&Message::new(0, stamp, String::new()));
    let receive_event = p1.log_event(String::from("receive"));
    assert!(send_event.total_order_key() < receive_event.total_order_key());
}
