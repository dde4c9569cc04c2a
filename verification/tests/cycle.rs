use feed_relay::cycle::{Cycle, CycleAction, CycleError, CycleEvent, CycleOutcome, CyclePhase};
use feed_relay::extract::ShapeError;
use feed_relay::item::Item;
use feed_relay::walker::{WalkAction, WalkError, WalkEvent};

const ROOT: &str = "https://facebook.com/";

/// Where a scripted run lets a step fail.
#[derive(Clone, Copy, PartialEq)]
enum Fault {
    Nowhere,
    ReadCheckpoint,
    ListSubscriptions,
    Delivery(usize),
    Persist,
    WriteCheckpoint,
}

/// The outside world of a scripted run: the feed shows the posts numbered
/// `posts`, all at the first query.
struct World {
    checkpoint: Option<u32>,
    posts: Vec<u32>,
    subscriptions: Vec<String>,
    fault: Fault,
    delivered: Vec<(String, String)>,
    stored: Vec<Item>,
    open: usize,
}

fn world(checkpoint: Option<u32>, posts: &[u32], subscriptions: &[&str]) -> World {
    World {
        checkpoint,
        posts: posts.to_vec(),
        subscriptions: subscriptions.iter().map(|s| s.to_string()).collect(),
        fault: Fault::Nowhere,
        delivered: vec![],
        stored: vec![],
        open: 0,
    }
}

fn feed(world: &mut World, action: WalkAction) -> WalkEvent {
    match action {
        WalkAction::OpenSession | WalkAction::Dismiss | WalkAction::CloseSession => WalkEvent::Done,
        WalkAction::CountAffordances => WalkEvent::Affordances(world.posts.len()),
        WalkAction::Probe(_) => WalkEvent::Interactable(true),
        WalkAction::Open(i) => {
            world.open = i;
            WalkEvent::PostText(format!("#{} post {}", world.posts[i], world.posts[i]))
        }
        WalkAction::ReadDetails => WalkEvent::Details {
            timestamp: Some(format!("{}", world.posts[world.open])),
            href: Some(format!("page/posts/id{}?ref=embed_post", world.posts[world.open])),
        },
        WalkAction::Finished => unreachable!(),
    }
}

/// Runs one cycle against `world` and gives its outcome with the actions asked for.
fn run(world: &mut World) -> (CycleOutcome, Vec<CycleAction>) {
    let (mut cycle, mut action) = Cycle::begin(ROOT.to_string());
    let mut log = vec![];
    let mut steps = 0;
    loop {
        steps += 1;
        assert!(steps < 10_000);
        let event = match &action {
            CycleAction::ReadCheckpoint => {
                if world.fault == Fault::ReadCheckpoint {
                    CycleEvent::Failed
                } else {
                    CycleEvent::Checkpoint(world.checkpoint)
                }
            }
            CycleAction::Feed(step) => CycleEvent::Feed(feed(world, *step)),
            CycleAction::ListSubscriptions => {
                if world.fault == Fault::ListSubscriptions {
                    CycleEvent::Failed
                } else {
                    CycleEvent::Subscriptions(world.subscriptions.clone())
                }
            }
            CycleAction::Deliver { destination, message } => {
                if world.fault == Fault::Delivery(world.delivered.len()) {
                    CycleEvent::Failed
                } else {
                    world.delivered.push((destination.clone(), message.clone()));
                    CycleEvent::Done
                }
            }
            CycleAction::Persist(items) => {
                if world.fault == Fault::Persist {
                    CycleEvent::Failed
                } else {
                    world.stored.extend(items.iter().map(|item| item.duplicate()));
                    CycleEvent::Done
                }
            }
            CycleAction::WriteCheckpoint(sequence) => {
                if world.fault == Fault::WriteCheckpoint {
                    CycleEvent::Failed
                } else {
                    world.checkpoint = Some(*sequence);
                    CycleEvent::Done
                }
            }
            CycleAction::Finished(outcome) => {
                assert_eq!(cycle.phase(), CyclePhase::Done);
                assert_eq!(cycle.outcome(), Some(*outcome));
                return (*outcome, log);
            }
        };
        log.push(action);
        let next = cycle.step(event);
        cycle = next.0;
        action = next.1;
    }
}

fn message(sequence: u32) -> String {
    format!("**#{} ** post {}\n<https://facebook.com/page/posts/id{}>", sequence, sequence, sequence)
        .replace(" **", "**")
}

fn stored_sequences(world: &World) -> Vec<u32> {
    world.stored.iter().map(|item| item.sequence).collect()
}

#[test]
fn cycle_delivers_oldest_first_stores_and_advances() {
    let mut w = world(Some(100), &[105, 104, 103, 101, 99], &["A"]);
    let (outcome, log) = run(&mut w);
    assert_eq!(outcome, CycleOutcome::Advanced(105));
    assert_eq!(
        w.delivered,
        vec![
            ("A".to_string(), "**#101** post 101\n<https://facebook.com/page/posts/id101>".to_string()),
            ("A".to_string(), "**#103** post 103\n<https://facebook.com/page/posts/id103>".to_string()),
            ("A".to_string(), "**#104** post 104\n<https://facebook.com/page/posts/id104>".to_string()),
            ("A".to_string(), "**#105** post 105\n<https://facebook.com/page/posts/id105>".to_string()),
        ]
    );
    assert_eq!(stored_sequences(&w), vec![105, 104, 103, 101]);
    assert_eq!(w.stored[3].text, "post 101");
    assert_eq!(w.stored[3].source_id, "id101");
    assert_eq!(w.checkpoint, Some(105));
    assert_eq!(log[0], CycleAction::ReadCheckpoint);
    assert_eq!(log[1], CycleAction::Feed(WalkAction::OpenSession));
    assert_eq!(log[log.len() - 1], CycleAction::WriteCheckpoint(105));
}

#[test]
fn cycle_with_nothing_new_does_nothing() {
    let mut w = world(Some(100), &[100, 99], &["A", "B"]);
    let (outcome, log) = run(&mut w);
    assert_eq!(outcome, CycleOutcome::Idle);
    assert!(w.delivered.is_empty());
    assert!(w.stored.is_empty());
    assert_eq!(w.checkpoint, Some(100));
    assert!(!log.contains(&CycleAction::ListSubscriptions));
    assert_eq!(log[log.len() - 1], CycleAction::Feed(WalkAction::CloseSession));
}

#[test]
fn cycle_over_a_stalled_feed_does_nothing() {
    let mut w = world(Some(100), &[], &["A"]);
    let (outcome, log) = run(&mut w);
    assert_eq!(outcome, CycleOutcome::Idle);
    assert_eq!(w.checkpoint, Some(100));
    assert_eq!(
        log,
        vec![
            CycleAction::ReadCheckpoint,
            CycleAction::Feed(WalkAction::OpenSession),
            CycleAction::Feed(WalkAction::CountAffordances),
            CycleAction::Feed(WalkAction::CloseSession),
        ]
    );
}

#[test]
fn each_destination_receives_every_entry_before_anything_is_stored() {
    let mut w = world(Some(7), &[9, 8], &["A", "B"]);
    let (outcome, log) = run(&mut w);
    assert_eq!(outcome, CycleOutcome::Advanced(9));
    assert_eq!(
        w.delivered,
        vec![
            ("A".to_string(), message(8)),
            ("A".to_string(), message(9)),
            ("B".to_string(), message(8)),
            ("B".to_string(), message(9)),
        ]
    );
    let at = |wanted: fn(&CycleAction) -> bool| log.iter().position(|a| wanted(a)).unwrap();
    let last_delivery = log.iter().rposition(|a| matches!(a, CycleAction::Deliver { .. })).unwrap();
    let persist = at(|a| matches!(a, CycleAction::Persist(_)));
    let write = at(|a| matches!(a, CycleAction::WriteCheckpoint(_)));
    assert!(last_delivery < persist && persist < write);
    assert_eq!(stored_sequences(&w), vec![9, 8]);
    assert_eq!(w.checkpoint, Some(9));
}

#[test]
fn destination_listed_twice_is_served_once() {
    let mut w = world(Some(0), &[2, 1], &["B", "A", "B", "B", "A"]);
    let (outcome, _) = run(&mut w);
    assert_eq!(outcome, CycleOutcome::Advanced(2));
    let to: Vec<&str> = w.delivered.iter().map(|d| d.0.as_str()).collect();
    assert_eq!(to, vec!["B", "B", "A", "A"]);
}

#[test]
fn cycle_without_destinations_still_stores_and_advances() {
    let mut w = world(Some(3), &[5, 4, 3], &[]);
    let (outcome, log) = run(&mut w);
    assert_eq!(outcome, CycleOutcome::Advanced(5));
    assert!(w.delivered.is_empty());
    assert_eq!(stored_sequences(&w), vec![5, 4]);
    assert_eq!(w.checkpoint, Some(5));
    assert_eq!(log[log.len() - 3], CycleAction::ListSubscriptions);
}

#[test]
fn checkpoint_never_falls_over_successive_cycles() {
    let mut w = world(Some(10), &[13, 12, 11, 10], &["A"]);
    assert_eq!(run(&mut w).0, CycleOutcome::Advanced(13));
    assert_eq!(w.checkpoint, Some(13));
    assert_eq!(run(&mut w).0, CycleOutcome::Idle);
    assert_eq!(w.checkpoint, Some(13));
    w.posts = vec![14, 13, 12];
    assert_eq!(run(&mut w).0, CycleOutcome::Advanced(14));
    assert_eq!(w.checkpoint, Some(14));
    assert_eq!(stored_sequences(&w), vec![13, 12, 11, 14]);
    assert_eq!(w.delivered.len(), 4);
}

#[test]
fn unseeded_checkpoint_fails_the_cycle_at_once() {
    let mut w = world(None, &[5], &["A"]);
    let (outcome, log) = run(&mut w);
    assert_eq!(outcome, CycleOutcome::Failed(CycleError::Unseeded));
    assert_eq!(log, vec![CycleAction::ReadCheckpoint]);
}

#[test]
fn highest_checkpoint_leaves_nothing_to_walk_for() {
    let mut w = world(Some(u32::MAX), &[5], &["A"]);
    let (outcome, log) = run(&mut w);
    assert_eq!(outcome, CycleOutcome::Failed(CycleError::Exhausted));
    assert_eq!(log, vec![CycleAction::ReadCheckpoint]);
    let mut w = world(Some(u32::MAX - 1), &[u32::MAX, 5], &["A"]);
    assert_eq!(run(&mut w).0, CycleOutcome::Advanced(u32::MAX));
}

#[test]
fn store_failure_ends_the_cycle_before_the_later_steps() {
    let mut w = world(Some(1), &[3, 2], &["A"]);
    w.fault = Fault::ReadCheckpoint;
    assert_eq!(run(&mut w).0, CycleOutcome::Failed(CycleError::Store));

    let mut w = world(Some(1), &[3, 2], &["A"]);
    w.fault = Fault::ListSubscriptions;
    let (outcome, log) = run(&mut w);
    assert_eq!(outcome, CycleOutcome::Failed(CycleError::Store));
    assert!(w.delivered.is_empty() && w.stored.is_empty());
    assert_eq!(log[log.len() - 1], CycleAction::ListSubscriptions);

    let mut w = world(Some(1), &[3, 2], &["A"]);
    w.fault = Fault::Persist;
    let (outcome, log) = run(&mut w);
    assert_eq!(outcome, CycleOutcome::Failed(CycleError::Store));
    assert_eq!(w.delivered.len(), 2);
    assert_eq!(w.checkpoint, Some(1));
    assert!(!log.iter().any(|a| matches!(a, CycleAction::WriteCheckpoint(_))));

    let mut w = world(Some(1), &[3, 2], &["A"]);
    w.fault = Fault::WriteCheckpoint;
    let (outcome, _) = run(&mut w);
    assert_eq!(outcome, CycleOutcome::Failed(CycleError::Store));
    assert_eq!(stored_sequences(&w), vec![3, 2]);
    assert_eq!(w.checkpoint, Some(1));
}

#[test]
fn delivery_failure_ends_the_cycle_and_the_next_one_delivers_again() {
    let mut w = world(Some(1), &[3, 2], &["A", "B"]);
    w.fault = Fault::Delivery(2);
    let (outcome, log) = run(&mut w);
    assert_eq!(outcome, CycleOutcome::Failed(CycleError::Delivery));
    assert_eq!(w.delivered.len(), 2);
    assert!(w.stored.is_empty());
    assert_eq!(w.checkpoint, Some(1));
    assert!(!log.iter().any(|a| matches!(a, CycleAction::Persist(_))));

    w.fault = Fault::Nowhere;
    assert_eq!(run(&mut w).0, CycleOutcome::Advanced(3));
    let to: Vec<&str> = w.delivered.iter().map(|d| d.0.as_str()).collect();
    assert_eq!(to, vec!["A", "A", "A", "A", "B", "B"]);
    assert_eq!(stored_sequences(&w), vec![3, 2]);
}

fn walking(events: Vec<WalkEvent>) -> (Cycle, CycleAction) {
    let (cycle, _) = Cycle::begin(ROOT.to_string());
    let (mut cycle, mut action) = cycle.step(CycleEvent::Checkpoint(Some(4)));
    for event in events {
        let next = cycle.step(CycleEvent::Feed(event));
        cycle = next.0;
        action = next.1;
    }
    (cycle, action)
}

#[test]
fn failed_walk_fails_the_cycle_after_the_session_is_released() {
    let (cycle, action) = walking(vec![
        WalkEvent::Done,
        WalkEvent::Affordances(1),
        WalkEvent::Interactable(true),
        WalkEvent::PostText("#9 nine".to_string()),
        WalkEvent::Details { timestamp: Some("never".to_string()), href: Some("p/9".to_string()) },
    ]);
    assert_eq!(action, CycleAction::Feed(WalkAction::CloseSession));
    assert_eq!(cycle.phase(), CyclePhase::Walking);
    assert_eq!(cycle.outcome(), None);
    let (cycle, action) = cycle.step(CycleEvent::Feed(WalkEvent::Done));
    let failed = CycleOutcome::Failed(CycleError::Walk(WalkError::Shape(ShapeError::Timestamp)));
    assert_eq!(action, CycleAction::Finished(failed));
    assert_eq!(cycle.outcome(), Some(failed));
}

#[test]
fn answer_of_the_wrong_kind_during_the_walk_counts_as_a_feed_failure() {
    let (cycle, _) = walking(vec![WalkEvent::Done]);
    let (cycle, action) = cycle.step(CycleEvent::Done);
    assert_eq!(action, CycleAction::Feed(WalkAction::CloseSession));
    let (_, action) = cycle.step(CycleEvent::Feed(WalkEvent::Done));
    assert_eq!(
        action,
        CycleAction::Finished(CycleOutcome::Failed(CycleError::Walk(WalkError::Surface)))
    );
}

#[test]
fn answer_of_the_wrong_kind_fails_the_step_awaited() {
    let (cycle, action) = Cycle::begin(ROOT.to_string());
    assert_eq!(action, CycleAction::ReadCheckpoint);
    assert_eq!(cycle.phase(), CyclePhase::ReadingCheckpoint);
    let (_, action) = cycle.step(CycleEvent::Subscriptions(vec![]));
    assert_eq!(action, CycleAction::Finished(CycleOutcome::Failed(CycleError::Store)));

    let (cycle, action) = walking(vec![
        WalkEvent::Done,
        WalkEvent::Affordances(1),
        WalkEvent::Interactable(true),
        WalkEvent::PostText("#9 nine".to_string()),
        WalkEvent::Details { timestamp: Some("9".to_string()), href: Some("p/9".to_string()) },
        WalkEvent::Done,
        WalkEvent::Affordances(1),
        WalkEvent::Done,
    ]);
    assert_eq!(action, CycleAction::ListSubscriptions);
    let (cycle, action) = cycle.step(CycleEvent::Subscriptions(vec!["A".to_string()]));
    assert_eq!(
        action,
        CycleAction::Deliver {
            destination: "A".to_string(),
            message: "**#9** nine\n<https://facebook.com/p/9>".to_string()
        }
    );
    let (cycle, action) = cycle.step(CycleEvent::Checkpoint(Some(1)));
    assert_eq!(action, CycleAction::Finished(CycleOutcome::Failed(CycleError::Delivery)));
    let (_, action) = cycle.step(CycleEvent::Done);
    assert_eq!(action, CycleAction::Finished(CycleOutcome::Failed(CycleError::Delivery)));
}
