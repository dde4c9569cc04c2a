//! The synchronization cycle: read the checkpoint, walk the feed from just above
//! it, hand every new entry to every subscribed destination, store the entries
//! and advance the checkpoint.
//!
//! Like the walker, the cycle is a machine: it is told what the stores, the feed
//! and the delivery sink answered (`CycleEvent`) and says what to do next
//! (`CycleAction`). A failure at any step ends the cycle before the later steps.

use vstd::prelude::*;
use crate::item::{announcement, Item, ItemView};
use crate::registry::{distinct, each_once, lemma_each_once, texts, SubscriptionRegistry};
use crate::walker::{
    law_session_released, lemma_next_inv, lemma_start_inv, newest_first, views, walk_inv,
    walk_next, walk_start, WalkAction, WalkError, WalkEvent, WalkEventView, WalkPhase, WalkState,
    Walker,
};

verus! {

/// Why a cycle failed.
#[derive(Clone, Copy, Debug, PartialEq, Eq, Structural)]
pub enum CycleError {
    /// The checkpoint was never seeded.
    Unseeded,
    /// The checkpoint is the highest sequence number there is: nothing can lie
    /// above it.
    Exhausted,
    /// The walk failed.
    Walk(WalkError),
    /// A store did not answer, or refused a write.
    Store,
    /// A destination could not be reached.
    Delivery,
}

/// How a cycle ended.
#[derive(Clone, Copy, Debug, PartialEq, Eq, Structural)]
pub enum CycleOutcome {
    /// The feed had nothing new: nothing was delivered, stored or written.
    Idle,
    /// Every new entry was delivered and stored, and the checkpoint now is this
    /// sequence number.
    Advanced(u32),
    /// The cycle failed at some step and did none of the later ones.
    Failed(CycleError),
}

/// What the cycle is waiting for.
#[derive(Clone, Copy, Debug, PartialEq, Eq, Structural)]
pub enum CyclePhase {
    /// For the checkpoint.
    ReadingCheckpoint,
    /// For the feed's answer to the walker.
    Walking,
    /// For the listing of the subscribed destinations.
    Listing,
    /// For a message to be delivered.
    Delivering,
    /// For the entries to be stored.
    Persisting,
    /// For the checkpoint to be written.
    Advancing,
    /// For nothing: the cycle is over.
    Done,
}

/// What the stores, the feed or the sink answered.
#[derive(Debug, PartialEq, Eq)]
pub enum CycleEvent {
    /// The checkpoint record, if the store holds one.
    Checkpoint(Option<u32>),
    /// The feed's answer to the walker's last action.
    Feed(WalkEvent),
    /// The destinations that the registry lists.
    Subscriptions(Vec<String>),
    /// The action was carried out.
    Done,
    /// The action failed.
    Failed,
}

/// A `CycleEvent` as mathematical values.
pub enum CycleEventView {
    Checkpoint(Option<u32>),
    Feed(WalkEventView),
    Subscriptions(Seq<Seq<char>>),
    Done,
    Failed,
}

impl View for CycleEvent {
    type V = CycleEventView;

    open spec fn view(&self) -> CycleEventView {
        match self {
            CycleEvent::Checkpoint(record) => CycleEventView::Checkpoint(*record),
            CycleEvent::Feed(event) => CycleEventView::Feed(event@),
            CycleEvent::Subscriptions(listing) => CycleEventView::Subscriptions(texts(listing@)),
            CycleEvent::Done => CycleEventView::Done,
            CycleEvent::Failed => CycleEventView::Failed,
        }
    }
}

/// What the cycle asks to be done.
#[derive(Debug, PartialEq, Eq)]
pub enum CycleAction {
    /// Read the checkpoint record. Answer `Checkpoint`.
    ReadCheckpoint,
    /// Carry out the walker's action on the feed. Answer `Feed`.
    Feed(WalkAction),
    /// List the subscribed destinations. Answer `Subscriptions`.
    ListSubscriptions,
    /// Send `message` to `destination`. Answer `Done`.
    Deliver { destination: String, message: String },
    /// Store these entries as one batch. Answer `Done`.
    Persist(Vec<Item>),
    /// Overwrite the checkpoint record with this sequence number. Answer `Done`.
    WriteCheckpoint(u32),
    /// Nothing: the cycle is over, and this is how it ended.
    Finished(CycleOutcome),
}

/// A `CycleAction` as mathematical values.
pub enum CycleActionView {
    ReadCheckpoint,
    Feed(WalkAction),
    ListSubscriptions,
    Deliver { destination: Seq<char>, message: Seq<char> },
    Persist(Seq<ItemView>),
    WriteCheckpoint(u32),
    Finished(CycleOutcome),
}

impl View for CycleAction {
    type V = CycleActionView;

    open spec fn view(&self) -> CycleActionView {
        match self {
            CycleAction::ReadCheckpoint => CycleActionView::ReadCheckpoint,
            CycleAction::Feed(action) => CycleActionView::Feed(*action),
            CycleAction::ListSubscriptions => CycleActionView::ListSubscriptions,
            CycleAction::Deliver { destination, message } => CycleActionView::Deliver {
                destination: destination@,
                message: message@,
            },
            CycleAction::Persist(items) => CycleActionView::Persist(views(items@)),
            CycleAction::WriteCheckpoint(sequence) => CycleActionView::WriteCheckpoint(*sequence),
            CycleAction::Finished(outcome) => CycleActionView::Finished(*outcome),
        }
    }
}

/// The state of a cycle, with what it has asked the outside to do so far.
pub struct CycleState {
    /// The address that the walker completes links with.
    pub root: Seq<char>,
    pub phase: CyclePhase,
    /// The checkpoint as it was read.
    pub checkpoint: Option<nat>,
    /// The walk, while it goes on.
    pub walk: Option<WalkState>,
    /// The new entries, newest first.
    pub items: Seq<ItemView>,
    /// The subscribed destinations, each once.
    pub destinations: Seq<Seq<char>>,
    /// The index of the destination that is being served.
    pub destination: nat,
    /// How many entries that destination was handed before the one in flight.
    pub position: nat,
    /// How the cycle ended, once it has.
    pub outcome: Option<CycleOutcome>,
    /// For each destination, the sequence numbers of the entries handed to the
    /// sink for it, in the order in which they were handed over.
    pub sent: Seq<Seq<nat>>,
    /// The batch that the store was asked to keep, if it was asked.
    pub stored: Option<Seq<ItemView>>,
    /// The checkpoint that the store was asked to write, if it was asked.
    pub written: Option<nat>,
}

/// The sequence numbers of `items` in the order of delivery: oldest first, the
/// reverse of the walker's order.
pub open spec fn ascending(items: Seq<ItemView>) -> Seq<nat> {
    Seq::new(items.len(), |k: int| items[items.len() - 1 - k].sequence)
}

/// The highest sequence number among `items`, or 0 where there are none.
pub open spec fn highest(items: Seq<ItemView>) -> nat
    decreases items.len(),
{
    if items.len() == 0 {
        0
    } else if items.last().sequence > highest(items.drop_last()) {
        items.last().sequence
    } else {
        highest(items.drop_last())
    }
}

/// The state in which a cycle starts. Its first action is `ReadCheckpoint`.
pub open spec fn cycle_start(root: Seq<char>) -> CycleState {
    CycleState {
        root,
        phase: CyclePhase::ReadingCheckpoint,
        checkpoint: None,
        walk: None,
        items: Seq::empty(),
        destinations: Seq::empty(),
        destination: 0,
        position: 0,
        outcome: None,
        sent: Seq::empty(),
        stored: None,
        written: None,
    }
}

/// The cycle ends.
pub open spec fn finish(s: CycleState, outcome: CycleOutcome) -> (CycleState, CycleActionView) {
    (
        CycleState { phase: CyclePhase::Done, walk: None, outcome: Some(outcome), ..s },
        CycleActionView::Finished(outcome),
    )
}

/// The cycle hands the entry at `position` of the delivery order to the
/// destination at index `destination`.
pub open spec fn deliver(s: CycleState, destination: nat, position: nat) -> (
    CycleState,
    CycleActionView,
) {
    let item = s.items[s.items.len() - 1 - position];
    (
        CycleState {
            phase: CyclePhase::Delivering,
            destination,
            position,
            sent: s.sent.update(
                destination as int,
                s.sent[destination as int].push(item.sequence),
            ),
            ..s
        },
        CycleActionView::Deliver {
            destination: s.destinations[destination as int],
            message: announcement(item),
        },
    )
}

/// The cycle asks for the entries to be stored.
pub open spec fn persist(s: CycleState) -> (CycleState, CycleActionView) {
    (
        CycleState { phase: CyclePhase::Persisting, stored: Some(s.items), ..s },
        CycleActionView::Persist(s.items),
    )
}

/// The cycle has the listing of the registry: it serves each destination once.
pub open spec fn fan_out(s: CycleState, listing: Seq<Seq<char>>) -> (CycleState, CycleActionView) {
    let destinations = each_once(listing);
    let ready = CycleState {
        destinations,
        sent: Seq::new(destinations.len(), |d: int| Seq::<nat>::empty()),
        ..s
    };
    if destinations.len() == 0 {
        persist(ready)
    } else {
        deliver(ready, 0, 0)
    }
}

/// The walk is over: the cycle ends if it failed or found nothing, and asks for
/// the destinations otherwise.
pub open spec fn after_walk(s: CycleState, walk: WalkState) -> (CycleState, CycleActionView) {
    match walk.failure {
        Some(e) => finish(s, CycleOutcome::Failed(CycleError::Walk(e))),
        None => if walk.items.len() == 0 {
            finish(s, CycleOutcome::Idle)
        } else {
            (
                CycleState { phase: CyclePhase::Listing, walk: None, items: walk.items, ..s },
                CycleActionView::ListSubscriptions,
            )
        },
    }
}

/// The walker takes what the feed showed.
pub open spec fn walk_on(s: CycleState, event: WalkEventView) -> (CycleState, CycleActionView) {
    match s.walk {
        Some(walk) => {
            let (next, action) = walk_next(walk, event);
            if action == WalkAction::Finished {
                after_walk(s, next)
            } else {
                (CycleState { walk: Some(next), ..s }, CycleActionView::Feed(action))
            }
        },
        None => finish(s, CycleOutcome::Failed(CycleError::Walk(WalkError::Surface))),
    }
}

/// The state after `event` and the action that the cycle answers with. An event
/// that the phase does not wait for counts as a failure of the step awaited.
pub open spec fn cycle_next(s: CycleState, event: CycleEventView) -> (CycleState, CycleActionView) {
    match s.phase {
        CyclePhase::ReadingCheckpoint => match event {
            CycleEventView::Checkpoint(Some(last)) => if last == u32::MAX {
                finish(
                    CycleState { checkpoint: Some(last as nat), ..s },
                    CycleOutcome::Failed(CycleError::Exhausted),
                )
            } else {
                (
                    CycleState {
                        phase: CyclePhase::Walking,
                        checkpoint: Some(last as nat),
                        walk: Some(walk_start((last + 1) as nat, s.root)),
                        ..s
                    },
                    CycleActionView::Feed(WalkAction::OpenSession),
                )
            },
            CycleEventView::Checkpoint(None) => finish(
                s,
                CycleOutcome::Failed(CycleError::Unseeded),
            ),
            _ => finish(s, CycleOutcome::Failed(CycleError::Store)),
        },
        CyclePhase::Walking => match event {
            CycleEventView::Feed(shown) => walk_on(s, shown),
            _ => walk_on(s, WalkEventView::Failed),
        },
        CyclePhase::Listing => match event {
            CycleEventView::Subscriptions(listing) => fan_out(s, listing),
            _ => finish(s, CycleOutcome::Failed(CycleError::Store)),
        },
        CyclePhase::Delivering => match event {
            CycleEventView::Done => if s.position + 1 < s.items.len() {
                deliver(s, s.destination, s.position + 1)
            } else if s.destination + 1 < s.destinations.len() {
                deliver(s, s.destination + 1, 0)
            } else {
                persist(s)
            },
            _ => finish(s, CycleOutcome::Failed(CycleError::Delivery)),
        },
        CyclePhase::Persisting => match event {
            CycleEventView::Done => (
                CycleState {
                    phase: CyclePhase::Advancing,
                    written: Some(highest(s.items)),
                    ..s
                },
                CycleActionView::WriteCheckpoint(highest(s.items) as u32),
            ),
            _ => finish(s, CycleOutcome::Failed(CycleError::Store)),
        },
        CyclePhase::Advancing => match event {
            CycleEventView::Done => finish(s, CycleOutcome::Advanced(highest(s.items) as u32)),
            _ => finish(s, CycleOutcome::Failed(CycleError::Store)),
        },
        CyclePhase::Done => (
            s,
            CycleActionView::Finished(
                match s.outcome {
                    Some(outcome) => outcome,
                    None => CycleOutcome::Failed(CycleError::Store),
                },
            ),
        ),
    }
}

/// Whether the destinations before index `destination` were handed every entry,
/// the one at that index the first `count` of them, and the others none.
pub open spec fn served(s: CycleState, destination: int, count: int) -> bool {
    &&& s.sent.len() == s.destinations.len()
    &&& forall|d: int| 0 <= d < destination && d < s.sent.len() ==> #[trigger] s.sent[d] == ascending(s.items)
    &&& 0 <= destination < s.sent.len() ==> s.sent[destination] == ascending(s.items).take(count)
    &&& forall|d: int| destination < d < s.sent.len() ==> #[trigger] s.sent[d] == Seq::<nat>::empty()
}

/// Whether the cycle holds a harvest: entries above the checkpoint, newest first.
pub open spec fn holds_harvest(s: CycleState) -> bool {
    &&& s.items.len() > 0
    &&& newest_first(s.items)
    &&& s.checkpoint matches Some(last)
    &&& forall|i: int|
        0 <= i < s.items.len() ==> last < (#[trigger] s.items[i]).sequence <= u32::MAX
}

/// What holds of every state that a cycle reaches.
pub open spec fn cycle_inv(s: CycleState) -> bool {
    &&& distinct(s.destinations)
    &&& (s.outcome is Some <==> s.phase == CyclePhase::Done)
    &&& (s.walk is Some <==> s.phase == CyclePhase::Walking)
    &&& s.items.len() > 0 ==> holds_harvest(s)
    &&& s.sent.len() > 0 ==> s.sent.len() == s.destinations.len() && s.items.len() > 0
    &&& forall|d: int|
        0 <= d < s.sent.len() ==> (#[trigger] s.sent[d]).len() <= s.items.len() && s.sent[d]
            == ascending(s.items).take(s.sent[d].len() as int)
    &&& s.stored matches Some(batch) ==> batch == s.items && s.items.len() > 0 && served(
        s,
        s.destinations.len() as int,
        0,
    )
    &&& s.written matches Some(sequence) ==> s.stored is Some && sequence == highest(s.items)
    &&& match s.phase {
        CyclePhase::ReadingCheckpoint => s.checkpoint is None && s.items.len() == 0 && s.sent.len()
            == 0 && s.stored is None && s.written is None,
        CyclePhase::Walking => {
            &&& s.walk matches Some(walk)
            &&& walk_inv(walk)
            &&& walk.phase != WalkPhase::Done
            &&& walk.root == s.root
            &&& s.checkpoint matches Some(last)
            &&& walk.boundary == last + 1
            &&& last < u32::MAX
            &&& s.items.len() == 0 && s.sent.len() == 0 && s.stored is None && s.written is None
        },
        CyclePhase::Listing => holds_harvest(s) && s.sent.len() == 0 && s.stored is None
            && s.written is None,
        CyclePhase::Delivering => {
            &&& holds_harvest(s)
            &&& s.destination < s.destinations.len()
            &&& s.position < s.items.len()
            &&& served(s, s.destination as int, s.position as int + 1)
            &&& s.stored is None
            &&& s.written is None
        },
        CyclePhase::Persisting => holds_harvest(s) && s.stored is Some && s.written is None,
        CyclePhase::Advancing => holds_harvest(s) && s.written is Some,
        CyclePhase::Done => match s.outcome {
            Some(CycleOutcome::Idle) => s.checkpoint is Some && s.items.len() == 0 && s.sent.len()
                == 0 && s.stored is None && s.written is None,
            Some(CycleOutcome::Advanced(sequence)) => holds_harvest(s) && s.written == Some(
                sequence as nat,
            ),
            _ => true,
        },
    }
}

/// Among entries that are newest first, the first has the highest number.
pub proof fn lemma_highest(items: Seq<ItemView>)
    requires
        items.len() > 0,
        newest_first(items),
    ensures
        highest(items) == items[0].sequence,
    decreases items.len(),
{
    if items.len() > 1 {
        lemma_highest(items.drop_last());
    } else {
        assert(highest(items.drop_last()) == 0);
    }
}

/// A cycle starts in a state that meets the invariant.
pub proof fn lemma_cycle_start_inv(root: Seq<char>)
    ensures
        cycle_inv(cycle_start(root)),
{
}

/// Every step of a cycle keeps the invariant.
pub proof fn lemma_cycle_next_inv(s: CycleState, event: CycleEventView)
    requires
        cycle_inv(s),
    ensures
        cycle_inv(cycle_next(s, event).0),
{
    let t = cycle_next(s, event).0;
    let rising = ascending(s.items);
    match s.phase {
        CyclePhase::ReadingCheckpoint => {
            if let CycleEventView::Checkpoint(Some(last)) = event {
                if last != u32::MAX {
                    lemma_start_inv((last + 1) as nat, s.root);
                }
            }
        },
        CyclePhase::Walking => {
            let shown = match event {
                CycleEventView::Feed(shown) => shown,
                _ => WalkEventView::Failed,
            };
            lemma_next_inv(s.walk.unwrap(), shown);
            law_session_released(s.walk.unwrap(), shown);
        },
        CyclePhase::Listing => {
            if let CycleEventView::Subscriptions(listing) = event {
                lemma_each_once(listing);
                assert forall|d: int| 0 <= d < t.sent.len() implies (#[trigger] t.sent[d]).len()
                    <= t.items.len() && t.sent[d] == rising.take(t.sent[d].len() as int) by {}
            }
        },
        CyclePhase::Delivering => {
            if event is Done {
                if s.position + 1 >= s.items.len() {
                    assert(rising.take(s.position as int + 1) =~= rising);
                }
                assert forall|d: int| 0 <= d < t.sent.len() implies (#[trigger] t.sent[d]).len()
                    <= t.items.len() && t.sent[d] == rising.take(t.sent[d].len() as int) by {}
            }
        },
        CyclePhase::Persisting => {
            lemma_highest(s.items);
        },
        CyclePhase::Advancing => {
            lemma_highest(s.items);
        },
        CyclePhase::Done => {},
    }
}

/// The state of a cycle that started in `s` after the outside has given
/// `events`, one after the other.
pub open spec fn cycle_run(s: CycleState, events: Seq<CycleEventView>) -> CycleState
    decreases events.len(),
{
    if events.len() == 0 {
        s
    } else {
        cycle_next(cycle_run(s, events.drop_last()), events.last()).0
    }
}

/// Whatever the outside answers, a cycle stays within the invariant.
pub proof fn law_cycle_stays_valid(root: Seq<char>, events: Seq<CycleEventView>)
    ensures
        cycle_inv(cycle_run(cycle_start(root), events)),
    decreases events.len(),
{
    if events.len() == 0 {
        lemma_cycle_start_inv(root);
    } else {
        law_cycle_stays_valid(root, events.drop_last());
        lemma_cycle_next_inv(cycle_run(cycle_start(root), events.drop_last()), events.last());
    }
}

/// Monotonic checkpoint: a cycle asks for no checkpoint but one above the
/// checkpoint that it read. It ends by advancing only where it found new
/// entries, and where it found none it asks for no write at all.
pub proof fn law_checkpoint_monotonic(s: CycleState)
    requires
        cycle_inv(s),
    ensures
        s.written matches Some(sequence) ==> s.checkpoint is Some && sequence
            > s.checkpoint.unwrap() && sequence == highest(s.items),
        s.outcome matches Some(CycleOutcome::Advanced(sequence)) ==> s.written == Some(
            sequence as nat,
        ) && s.items.len() > 0,
        s.outcome == Some(CycleOutcome::Idle) ==> s.written is None && s.items.len() == 0,
{
    if s.written is Some {
        lemma_highest(s.items);
    }
}

/// Nothing new, nothing done: a cycle that ends idle has contacted no
/// destination, stored nothing and written no checkpoint.
pub proof fn law_idle(s: CycleState)
    requires
        cycle_inv(s),
        s.outcome == Some(CycleOutcome::Idle),
    ensures
        s.sent.len() == 0,
        s.stored is None,
        s.written is None,
{
}

/// Ordering: what a destination is handed rises strictly in sequence number
/// from each message to the next.
pub proof fn law_ascending_delivery(s: CycleState, destination: int, earlier: int, later: int)
    requires
        cycle_inv(s),
        0 <= destination < s.sent.len(),
        0 <= earlier < later < s.sent[destination].len(),
    ensures
        s.sent[destination][earlier] < s.sent[destination][later],
{
    let rising = ascending(s.items);
    let handed = s.sent[destination];
}

/// Fan-out: once the store was asked to keep the entries, every destination has
/// been handed every entry, oldest first, and each destination exactly once as
/// many messages as there are entries. The checkpoint is written after that
/// only.
pub proof fn law_fan_out(s: CycleState)
    requires
        cycle_inv(s),
        s.stored is Some || s.written is Some,
    ensures
        s.stored == Some(s.items),
        distinct(s.destinations),
        s.sent.len() == s.destinations.len(),
        forall|d: int|
            0 <= d < s.destinations.len() ==> #[trigger] s.sent[d] == ascending(s.items)
                && s.sent[d].len() == s.items.len(),
{
}

/// All or nothing: when a store or the sink reports a failure, the cycle ends
/// at once as failed and asks for nothing more.
pub proof fn law_failure_ends_cycle(s: CycleState)
    requires
        cycle_inv(s),
        s.phase != CyclePhase::Walking,
        s.phase != CyclePhase::Done,
    ensures
        cycle_next(s, CycleEventView::Failed).1 matches CycleActionView::Finished(
            CycleOutcome::Failed(_),
        ),
        cycle_next(s, CycleEventView::Failed).0.sent == s.sent,
        cycle_next(s, CycleEventView::Failed).0.stored == s.stored,
        cycle_next(s, CycleEventView::Failed).0.written == s.written,
{
}

/// While the walk goes on nothing is delivered, stored or written, and a walk
/// that fails ends the cycle as failed.
pub proof fn law_walk_first(s: CycleState, event: CycleEventView)
    requires
        cycle_inv(s),
        s.phase == CyclePhase::Walking,
    ensures
        cycle_next(s, event).0.sent.len() == 0,
        cycle_next(s, event).0.stored is None,
        cycle_next(s, event).0.written is None,
        cycle_next(s, event).1 is Feed || cycle_next(s, event).1 is Finished || cycle_next(
            s,
            event,
        ).1 is ListSubscriptions,
{
}

/// A cycle that is over stays over.
pub proof fn law_done_is_final(s: CycleState, event: CycleEventView)
    requires
        cycle_inv(s),
        s.phase == CyclePhase::Done,
    ensures
        cycle_next(s, event) == (s, CycleActionView::Finished(s.outcome.unwrap())),
{
}

/// Copies of `items`, in order.
fn duplicate_all(items: &Vec<Item>) -> (copies: Vec<Item>)
    ensures
        views(copies@) == views(items@),
{
    let mut copies: Vec<Item> = Vec::new();
    let mut i: usize = 0;
    while i < items.len()
        invariant
            i <= items.len(),
            copies.len() == i,
            forall|j: int| 0 <= j < i ==> copies@[j]@ == items@[j]@,
        decreases items.len() - i,
    {
        copies.push(items[i].duplicate());
        i += 1;
    }
    copies
}

/// A cycle in progress.
pub struct Cycle {
    root: String,
    phase: CyclePhase,
    checkpoint: Option<u32>,
    walker: Option<Walker>,
    items: Vec<Item>,
    destinations: Vec<String>,
    destination: usize,
    position: usize,
    outcome: Option<CycleOutcome>,
    sent: Ghost<Seq<Seq<nat>>>,
    stored: Ghost<Option<Seq<ItemView>>>,
    written: Ghost<Option<nat>>,
}

impl View for Cycle {
    type V = CycleState;

    closed spec fn view(&self) -> CycleState {
        CycleState {
            root: self.root@,
            phase: self.phase,
            checkpoint: match self.checkpoint {
                Some(last) => Some(last as nat),
                None => None,
            },
            walk: match self.walker {
                Some(walker) => Some(walker@),
                None => None,
            },
            items: views(self.items@),
            destinations: texts(self.destinations@),
            destination: self.destination as nat,
            position: self.position as nat,
            outcome: self.outcome,
            sent: self.sent@,
            stored: self.stored@,
            written: self.written@,
        }
    }
}

impl Cycle {
    /// Every cycle is in a state that a cycle can reach.
    #[verifier::type_invariant]
    pub closed spec fn wf(&self) -> bool {
        cycle_inv(self@)
    }

    /// Starts a cycle over the feed at `root`. The first thing to do is to read
    /// the checkpoint.
    pub fn begin(root: String) -> (r: (Cycle, CycleAction))
        ensures
            r.0@ == cycle_start(root@),
            r.1@ == CycleActionView::ReadCheckpoint,
    {
        let items: Vec<Item> = Vec::new();
        let destinations: Vec<String> = Vec::new();
        proof {
            lemma_cycle_start_inv(root@);
            assert(views(items@) =~= Seq::<ItemView>::empty());
            assert(texts(destinations@) =~= Seq::<Seq<char>>::empty());
        }
        let cycle = Cycle {
            root,
            phase: CyclePhase::ReadingCheckpoint,
            checkpoint: None,
            walker: None,
            items,
            destinations,
            destination: 0,
            position: 0,
            outcome: None,
            sent: Ghost(Seq::empty()),
            stored: Ghost(None),
            written: Ghost(None),
        };
        (cycle, CycleAction::ReadCheckpoint)
    }

    /// What the cycle is waiting for.
    pub fn phase(&self) -> (phase: CyclePhase)
        ensures
            phase == self@.phase,
    {
        self.phase
    }

    /// How the cycle ended, once it has.
    pub fn outcome(&self) -> (outcome: Option<CycleOutcome>)
        ensures
            outcome == self@.outcome,
            cycle_inv(self@),
    {
        proof {
            use_type_invariant(self);
        }
        self.outcome
    }

    fn finish(self, outcome: CycleOutcome) -> (r: (Cycle, CycleAction))
        requires
            cycle_inv(finish(self@, outcome).0),
        ensures
            (r.0@, r.1@) == finish(self@, outcome),
    {
        (
            Cycle { phase: CyclePhase::Done, walker: None, outcome: Some(outcome), ..self },
            CycleAction::Finished(outcome),
        )
    }

    fn deliver(self, destination: usize, position: usize) -> (r: (Cycle, CycleAction))
        requires
            destination < self@.destinations.len(),
            position < self@.items.len(),
            cycle_inv(deliver(self@, destination as nat, position as nat).0),
        ensures
            (r.0@, r.1@) == deliver(self@, destination as nat, position as nat),
    {
        let item = &self.items[self.items.len() - 1 - position];
        let message = item.render();
        let to = self.destinations[destination].clone();
        let ghost sent = self.sent@.update(
            destination as int,
            self.sent@[destination as int].push(item@.sequence),
        );
        (
            Cycle {
                phase: CyclePhase::Delivering,
                destination,
                position,
                sent: Ghost(sent),
                ..self
            },
            CycleAction::Deliver { destination: to, message },
        )
    }

    fn persist(self) -> (r: (Cycle, CycleAction))
        requires
            cycle_inv(persist(self@).0),
        ensures
            (r.0@, r.1@) == persist(self@),
    {
        let batch = duplicate_all(&self.items);
        let ghost stored = Some(views(self.items@));
        (
            Cycle { phase: CyclePhase::Persisting, stored: Ghost(stored), ..self },
            CycleAction::Persist(batch),
        )
    }

    fn fan_out(self, listing: Vec<String>) -> (r: (Cycle, CycleAction))
        requires
            cycle_inv(self@),
            self@.phase == CyclePhase::Listing,
        ensures
            (r.0@, r.1@) == fan_out(self@, texts(listing@)),
    {
        proof {
            lemma_cycle_next_inv(self@, CycleEventView::Subscriptions(texts(listing@)));
        }
        let destinations = SubscriptionRegistry::from_listing(&listing).list_subscriptions();
        let ghost sent = Seq::new(texts(destinations@).len(), |d: int| Seq::<nat>::empty());
        if destinations.len() == 0 {
            let batch = duplicate_all(&self.items);
            let ghost stored = Some(views(self.items@));
            (
                Cycle {
                    phase: CyclePhase::Persisting,
                    destinations,
                    sent: Ghost(sent),
                    stored: Ghost(stored),
                    ..self
                },
                CycleAction::Persist(batch),
            )
        } else {
            let item = &self.items[self.items.len() - 1];
            let message = item.render();
            let to = destinations[0].clone();
            let ghost first = sent.update(0, sent[0].push(item@.sequence));
            (
                Cycle {
                    phase: CyclePhase::Delivering,
                    destinations,
                    destination: 0,
                    position: 0,
                    sent: Ghost(first),
                    ..self
                },
                CycleAction::Deliver { destination: to, message },
            )
        }
    }

    fn walk_on(self, shown: WalkEvent) -> (r: (Cycle, CycleAction))
        requires
            cycle_inv(self@),
            self@.phase == CyclePhase::Walking,
            cycle_inv(walk_on(self@, shown@).0),
        ensures
            (r.0@, r.1@) == walk_on(self@, shown@),
    {
        match self.walker {
            Some(walker) => {
                proof {
                    law_session_released(walker@, shown@);
                }
                let (next, action) = walker.step(shown);
                match action {
                    WalkAction::Finished => match next.outcome() {
                        Ok(found) => {
                            if found.len() == 0 {
                                let idle = CycleOutcome::Idle;
                                (
                                    Cycle {
                                        phase: CyclePhase::Done,
                                        walker: None,
                                        outcome: Some(idle),
                                        ..self
                                    },
                                    CycleAction::Finished(idle),
                                )
                            } else {
                                (
                                    Cycle {
                                        phase: CyclePhase::Listing,
                                        walker: None,
                                        items: found,
                                        ..self
                                    },
                                    CycleAction::ListSubscriptions,
                                )
                            }
                        },
                        Err(e) => {
                            let failed = CycleOutcome::Failed(CycleError::Walk(e));
                            (
                                Cycle {
                                    phase: CyclePhase::Done,
                                    walker: None,
                                    outcome: Some(failed),
                                    ..self
                                },
                                CycleAction::Finished(failed),
                            )
                        },
                    },
                    _ => (Cycle { walker: Some(next), ..self }, CycleAction::Feed(action)),
                }
            },
            None => {
                let failed = CycleOutcome::Failed(CycleError::Walk(WalkError::Surface));
                (
                    Cycle { phase: CyclePhase::Done, walker: None, outcome: Some(failed), ..self },
                    CycleAction::Finished(failed),
                )
            },
        }
    }

    /// Takes what the outside answered and says what to do next.
    pub fn step(self, event: CycleEvent) -> (r: (Cycle, CycleAction))
        ensures
            (r.0@, r.1@) == cycle_next(self@, event@),
            cycle_inv(self@),
            cycle_inv(r.0@),
    {
        proof {
            use_type_invariant(&self);
            lemma_cycle_next_inv(self@, event@);
        }
        match self.phase {
            CyclePhase::ReadingCheckpoint => match event {
                CycleEvent::Checkpoint(Some(last)) => {
                    if last == u32::MAX {
                        let exhausted = CycleOutcome::Failed(CycleError::Exhausted);
                        (
                            Cycle {
                                phase: CyclePhase::Done,
                                checkpoint: Some(last),
                                walker: None,
                                outcome: Some(exhausted),
                                ..self
                            },
                            CycleAction::Finished(exhausted),
                        )
                    } else {
                        let (walker, first) = Walker::begin(last + 1, self.root.clone());
                        (
                            Cycle {
                                phase: CyclePhase::Walking,
                                checkpoint: Some(last),
                                walker: Some(walker),
                                ..self
                            },
                            CycleAction::Feed(first),
                        )
                    }
                },
                CycleEvent::Checkpoint(None) => self.finish(
                    CycleOutcome::Failed(CycleError::Unseeded),
                ),
                _ => self.finish(CycleOutcome::Failed(CycleError::Store)),
            },
            CyclePhase::Walking => match event {
                CycleEvent::Feed(shown) => self.walk_on(shown),
                _ => self.walk_on(WalkEvent::Failed),
            },
            CyclePhase::Listing => match event {
                CycleEvent::Subscriptions(listing) => self.fan_out(listing),
                _ => self.finish(CycleOutcome::Failed(CycleError::Store)),
            },
            CyclePhase::Delivering => match event {
                CycleEvent::Done => {
                    assert(self.position < self.items.len());
                    assert(self.destination < self.destinations.len());
                    if self.position + 1 < self.items.len() {
                        let destination = self.destination;
                        let position = self.position + 1;
                        self.deliver(destination, position)
                    } else if self.destination + 1 < self.destinations.len() {
                        let destination = self.destination + 1;
                        self.deliver(destination, 0)
                    } else {
                        self.persist()
                    }
                },
                _ => self.finish(CycleOutcome::Failed(CycleError::Delivery)),
            },
            CyclePhase::Persisting => match event {
                CycleEvent::Done => {
                    proof {
                        lemma_highest(self@.items);
                    }
                    let newest = self.items[0].sequence;
                    (
                        Cycle {
                            phase: CyclePhase::Advancing,
                            written: Ghost(Some(newest as nat)),
                            ..self
                        },
                        CycleAction::WriteCheckpoint(newest),
                    )
                },
                _ => self.finish(CycleOutcome::Failed(CycleError::Store)),
            },
            CyclePhase::Advancing => match event {
                CycleEvent::Done => {
                    proof {
                        lemma_highest(self@.items);
                    }
                    let newest = self.items[0].sequence;
                    self.finish(CycleOutcome::Advanced(newest))
                },
                _ => self.finish(CycleOutcome::Failed(CycleError::Store)),
            },
            CyclePhase::Done => {
                let outcome = match self.outcome {
                    Some(outcome) => outcome,
                    None => CycleOutcome::Failed(CycleError::Store),
                };
                (self, CycleAction::Finished(outcome))
            },
        }
    }
}

} // verus!
