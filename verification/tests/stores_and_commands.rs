use feed_relay::command::{is_ping, ping_reply, subscribe, unsubscribe, CommandResult};
use feed_relay::cycle::{CycleError, CycleOutcome};
use feed_relay::registry::{CheckpointStore, StoreError, SubscriptionRegistry};
use feed_relay::scheduler::{after_cycle, LoopAction, Scheduler, CYCLE_INTERVAL_SECONDS};
use feed_relay::walker::WalkError;

fn names(list: &[&str]) -> Vec<String> {
    list.iter().map(|s| s.to_string()).collect()
}

#[test]
fn checkpoint_has_to_be_seeded_before_it_is_read() {
    let store = CheckpointStore::unseeded();
    assert_eq!(store.get_checkpoint(), Err(StoreError::Uninitialized));
    let store = CheckpointStore::seeded(100);
    assert_eq!(store.get_checkpoint(), Ok(100));
}

#[test]
fn checkpoint_is_overwritten_whatever_it_was() {
    let mut store = CheckpointStore::unseeded();
    store.set_checkpoint(7);
    assert_eq!(store.get_checkpoint(), Ok(7));
    store.set_checkpoint(105);
    assert_eq!(store.get_checkpoint(), Ok(105));
    store.set_checkpoint(3);
    assert_eq!(store.get_checkpoint(), Ok(3));
}

#[test]
fn subscribing_twice_is_subscribing_once() {
    let mut registry = SubscriptionRegistry::new();
    assert!(registry.add_subscription("A"));
    let once = registry.list_subscriptions();
    assert!(!registry.add_subscription("A"));
    assert_eq!(registry.list_subscriptions(), once);
    assert_eq!(once, names(&["A"]));
    assert_eq!(registry.len(), 1);
}

#[test]
fn removing_an_absent_destination_changes_nothing() {
    let mut registry = SubscriptionRegistry::new();
    assert!(!registry.remove_subscription("A"));
    assert_eq!(registry.len(), 0);
    registry.add_subscription("A");
    registry.add_subscription("B");
    assert!(!registry.remove_subscription("C"));
    assert_eq!(registry.list_subscriptions(), names(&["A", "B"]));
}

#[test]
fn registry_keeps_the_order_of_subscription() {
    let mut registry = SubscriptionRegistry::new();
    for name in ["C", "A", "B", "A", "C"] {
        registry.add_subscription(name);
    }
    assert_eq!(registry.list_subscriptions(), names(&["C", "A", "B"]));
    assert!(registry.contains("A"));
    assert!(!registry.contains("D"));
    assert!(!registry.contains(""));
    assert!(registry.remove_subscription("A"));
    assert!(!registry.remove_subscription("A"));
    assert_eq!(registry.list_subscriptions(), names(&["C", "B"]));
    assert!(!registry.contains("A"));
    assert!(registry.add_subscription("A"));
    assert_eq!(registry.list_subscriptions(), names(&["C", "B", "A"]));
}

#[test]
fn listing_with_repetitions_gives_each_destination_once() {
    let registry = SubscriptionRegistry::from_listing(&names(&["B", "A", "B", "B", "C", "A"]));
    assert_eq!(registry.list_subscriptions(), names(&["B", "A", "C"]));
    assert_eq!(registry.len(), 3);
    let empty = SubscriptionRegistry::from_listing(&vec![]);
    assert_eq!(empty.len(), 0);
    assert_eq!(empty.list_subscriptions(), Vec::<String>::new());
}

#[test]
fn subscribe_command_confirms_and_is_idempotent() {
    let mut registry = SubscriptionRegistry::new();
    let first = subscribe(&mut registry, "1234", "general");
    assert_eq!(
        first,
        CommandResult { changed: true, reply: "new confessions will be posted in #general".to_string() }
    );
    let second = subscribe(&mut registry, "1234", "general");
    assert_eq!(
        second,
        CommandResult { changed: false, reply: "new confessions will be posted in #general".to_string() }
    );
    assert_eq!(registry.list_subscriptions(), names(&["1234"]));
}

#[test]
fn unsubscribe_command_confirms_and_is_idempotent() {
    let mut registry = SubscriptionRegistry::from_listing(&names(&["1234", "77"]));
    let first = unsubscribe(&mut registry, "1234", "general");
    assert_eq!(
        first,
        CommandResult {
            changed: true,
            reply: "new confessions will not be posted in #general".to_string()
        }
    );
    let second = unsubscribe(&mut registry, "1234", "");
    assert_eq!(
        second,
        CommandResult { changed: false, reply: "new confessions will not be posted in #".to_string() }
    );
    assert_eq!(registry.list_subscriptions(), names(&["77"]));
}

#[test]
fn ping_is_answered() {
    assert!(is_ping("!ping"));
    assert!(is_ping("!ping are you there"));
    assert!(is_ping("!pingpong"));
    assert!(!is_ping("ping"));
    assert!(!is_ping(" !ping"));
    assert!(!is_ping("!pin"));
    assert!(!is_ping("!Ping"));
    assert!(!is_ping(""));
    assert_eq!(ping_reply("!ping"), Some("Pong!".to_string()));
    assert_eq!(ping_reply("hello"), None);
}

#[test]
fn loop_is_started_by_the_first_session_signal_only() {
    let mut scheduler = Scheduler::new();
    assert!(!scheduler.is_running());
    assert!(scheduler.session_established());
    assert!(scheduler.is_running());
    for _ in 0..5 {
        assert!(!scheduler.session_established());
        assert!(scheduler.is_running());
    }
}

#[test]
fn loop_sleeps_after_success_and_crashes_after_failure() {
    assert_eq!(CYCLE_INTERVAL_SECONDS, 1200);
    assert_eq!(after_cycle(CycleOutcome::Idle), LoopAction::Sleep(1200));
    assert_eq!(after_cycle(CycleOutcome::Advanced(105)), LoopAction::Sleep(1200));
    assert_eq!(
        after_cycle(CycleOutcome::Failed(CycleError::Delivery)),
        LoopAction::Crash(CycleError::Delivery)
    );
    assert_eq!(
        after_cycle(CycleOutcome::Failed(CycleError::Walk(WalkError::Surface))),
        LoopAction::Crash(CycleError::Walk(WalkError::Surface))
    );
}
