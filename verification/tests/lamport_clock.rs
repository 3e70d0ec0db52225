use clock::lamport_clock::{
    action_for_choice, next_action, order_events, pause_millis, Action, Event, LamportClock,
    Message, Node,
};

#[test]
fn clock_starts_at_zero() {
    let c = LamportClock::new();
    assert_eq!(c.read(), 0);
}

#[test]
fn tick_advances_by_one() {
    let mut c = LamportClock::new();
    assert_eq!(c.tick(), 1);
    assert_eq!(c.tick(), 2);
    assert_eq!(c.read(), 2);
}

#[test]
fn update_takes_max_then_ticks() {
    let mut c = LamportClock::new();
    c.tick();
    c.tick();
    assert_eq!(c.update(5), 6);
    assert_eq!(c.read(), 6);
    assert_eq!(c.update(1), 7);
    assert_eq!(c.update(7), 8);
}

#[test]
fn receive_comes_after_send() {
    let mut sender = Node::new(0, vec![1]);
    let mut receiver = Node::new(1, vec![0]);
    for _ in 0..4 {
        sender.handle_internal_event();
    }
    let (target, t) = sender.send_to(0);
    assert_eq!((target, t), (1, 5));
    let msg = Message::new(0, t, String::from("hello"));
    let r = receiver.handle_receive_event(&msg);
    assert_eq!(r, 6);
    assert!(r > t);
    assert_eq!(receiver.time(), 6);
}

#[test]
fn reexported_types_are_the_same() {
    let mut c = clock::LamportClock::new();
    assert_eq!(c.tick(), 1);
    let m = clock::Message::new(3, 9, String::from("x"));
    assert_eq!(m.sender_id(), 3);
    assert_eq!(m.timestamp(), 9);
    assert_eq!(m.content(), "x");
    let n = clock::Node::new(2, vec![]);
    assert_eq!(n.id(), 2);
}

#[test]
fn event_key_is_time_then_process() {
    let e = Event::new(4, 17, String::from("internal event"));
    assert_eq!(e.total_order_key(), (17, 4));
    assert_eq!(e.process_id(), 4);
    assert_eq!(e.time(), 17);
    assert_eq!(e.description(), "internal event");
}

#[test]
fn events_are_ordered_by_time_then_process() {
    let events = vec![
        Event::new(1, 3, String::from("a")),
        Event::new(2, 1, String::from("b")),
        Event::new(0, 3, String::from("c")),
        Event::new(2, 1, String::from("d")),
        Event::new(1, 2, String::from("e")),
    ];
    let sorted = order_events(events);
    let got: Vec<(u64, usize, String)> = sorted
        .iter()
        .map(|e| (e.time(), e.process_id(), e.description().to_string()))
        .collect();
    assert_eq!(
        got,
        vec![
            (1, 2, String::from("b")),
            (1, 2, String::from("d")),
            (2, 1, String::from("e")),
            (3, 0, String::from("c")),
            (3, 1, String::from("a")),
        ]
    );
}

#[test]
fn empty_log_stays_empty() {
    assert!(order_events(Vec::new()).is_empty());
}

#[test]
fn node_internal_event_ticks() {
    let mut n = Node::new(0, vec![1, 2]);
    assert_eq!(n.time(), 0);
    assert_eq!(n.handle_internal_event(), 1);
    assert_eq!(n.handle_internal_event(), 2);
    assert_eq!(n.time(), 2);
    assert_eq!(n.num_peers(), 2);
}

#[test]
fn send_without_peers_does_nothing() {
    let mut n = Node::new(0, vec![]);
    let mut rng = rand::rng();
    assert_eq!(n.handle_send_event(&mut rng), None);
    assert_eq!(n.time(), 0);
}

#[test]
fn send_goes_to_a_peer() {
    let mut n = Node::new(0, vec![3, 5, 7]);
    let mut rng = rand::rng();
    for i in 1..20u64 {
        let (target, t) = n.handle_send_event(&mut rng).unwrap();
        assert!([3, 5, 7].contains(&target));
        assert_eq!(t, i);
    }
}

#[test]
fn send_to_picks_the_indexed_peer() {
    let mut n = Node::new(0, vec![3, 5, 7]);
    assert_eq!(n.send_to(2), (7, 1));
    assert_eq!(n.send_to(0), (3, 2));
}

#[test]
fn log_event_records_the_process() {
    let n = Node::new(6, vec![]);
    let e = n.log_event(12, String::from("receive <- process 1"));
    assert_eq!(e.total_order_key(), (12, 6));
    assert_eq!(e.description(), "receive <- process 1");
}

#[test]
fn actions_split_the_hundred_in_thirds() {
    assert_eq!(action_for_choice(0), Action::Internal);
    assert_eq!(action_for_choice(32), Action::Internal);
    assert_eq!(action_for_choice(33), Action::Send);
    assert_eq!(action_for_choice(65), Action::Send);
    assert_eq!(action_for_choice(66), Action::Receive);
    assert_eq!(action_for_choice(99), Action::Receive);
}

#[test]
fn random_draws_stay_in_range() {
    let mut rng = rand::rng();
    let mut seen = [false; 3];
    let mut pauses = std::collections::HashSet::new();
    for _ in 0..1000 {
        let ms = pause_millis(&mut rng);
        assert!((10..50).contains(&ms));
        pauses.insert(ms);
        match next_action(&mut rng) {
            Action::Internal => seen[0] = true,
            Action::Send => seen[1] = true,
            Action::Receive => seen[2] = true,
        }
    }
    assert!(seen.iter().all(|s| *s));
    assert!(pauses.len() > 1);
}
