//! The feed walker: pages through the feed, newest entry first, and collects the
//! entries at or above a boundary.
//!
//! The walker drives nothing itself. It is a machine that is told what the feed
//! showed (`WalkEvent`) and answers with what to do next (`WalkAction`); whoever
//! holds the extraction session carries the actions out.

use vstd::prelude::*;
use crate::extract::{
    assemble, entry_of, is_post_text, parse_post_text, post_body, post_sequence, PostHead,
    ShapeError,
};
use crate::item::{Item, ItemView};

verus! {

/// Why a walk gave no entries.
#[derive(Clone, Copy, Debug, PartialEq, Eq, Structural)]
pub enum WalkError {
    /// The extraction session failed, or did not show an expected element.
    Surface,
    /// A field was shown but could not be read.
    Shape(ShapeError),
    /// The walk was asked for its entries before it had finished.
    Unfinished,
}

/// What the walker is waiting for.
#[derive(Clone, Copy, Debug, PartialEq, Eq, Structural)]
pub enum WalkPhase {
    /// For the session to be established.
    Opening,
    /// For the number of post affordances that the feed shows.
    Counting,
    /// For whether the affordance under the cursor can be interacted with.
    Probing,
    /// For the text of the post under the cursor.
    Reading,
    /// For the timestamp and the link of the post under the cursor.
    Detailing,
    /// For the detail view to be dismissed.
    Dismissing,
    /// For the session to be released.
    Closing,
    /// For nothing: the walk is over.
    Done,
}

/// What the walker asks the holder of the session to do.
#[derive(Clone, Copy, Debug, PartialEq, Eq, Structural)]
pub enum WalkAction {
    /// Establish a session at the feed's root, replay the authentication state
    /// into it and reload. Answer `Done`.
    OpenSession,
    /// Count the post affordances shown. Answer `Affordances`.
    CountAffordances,
    /// Tell whether the affordance at this index can be interacted with. Answer
    /// `Interactable`.
    Probe(usize),
    /// Invoke the affordance at this index, open the embedded view of its post
    /// and read the post text. Answer `PostText`.
    Open(usize),
    /// Read the timestamp attribute and the link of the open post. Answer
    /// `Details`.
    ReadDetails,
    /// Leave the embedded view and dismiss the detail view. Answer `Done`.
    Dismiss,
    /// Release the session. Answer `Done`.
    CloseSession,
    /// Nothing: the walk is over and its outcome can be taken.
    Finished,
}

/// What the feed showed in answer to an action.
#[derive(Debug, PartialEq, Eq)]
pub enum WalkEvent {
    /// The action was carried out.
    Done,
    /// The number of post affordances shown.
    Affordances(usize),
    /// Whether the affordance can be interacted with.
    Interactable(bool),
    /// The text of the post.
    PostText(String),
    /// The timestamp attribute and the link of the post, each as far as its
    /// element has it.
    Details { timestamp: Option<String>, href: Option<String> },
    /// The action failed, or an element it needed was not there.
    Failed,
}

/// The characters of an attribute that the feed showed, where the element had
/// the attribute.
pub open spec fn shown(value: Option<String>) -> Option<Seq<char>> {
    match value {
        Some(text) => Some(text@),
        None => None,
    }
}

/// A `WalkEvent` as mathematical values.
pub enum WalkEventView {
    Done,
    Affordances(usize),
    Interactable(bool),
    PostText(Seq<char>),
    Details { timestamp: Option<Seq<char>>, href: Option<Seq<char>> },
    Failed,
}

impl View for WalkEvent {
    type V = WalkEventView;

    open spec fn view(&self) -> WalkEventView {
        match self {
            WalkEvent::Done => WalkEventView::Done,
            WalkEvent::Affordances(n) => WalkEventView::Affordances(*n),
            WalkEvent::Interactable(b) => WalkEventView::Interactable(*b),
            WalkEvent::PostText(raw) => WalkEventView::PostText(raw@),
            WalkEvent::Details { timestamp, href } => WalkEventView::Details {
                timestamp: shown(*timestamp),
                href: shown(*href),
            },
            WalkEvent::Failed => WalkEventView::Failed,
        }
    }
}

/// The state of a walk.
pub struct WalkState {
    /// The lowest sequence number that the walk collects.
    pub boundary: nat,
    /// The address that links are completed with.
    pub root: Seq<char>,
    pub phase: WalkPhase,
    /// The lowest sequence number read so far, if any was read.
    pub earliest_seen: Option<nat>,
    /// How many affordances the earlier rounds have dealt with.
    pub num_seen: usize,
    /// How many affordances the feed showed at the start of this round.
    pub count: usize,
    /// The index of the affordance that is being dealt with.
    pub cursor: usize,
    /// The entries collected, newest first.
    pub items: Seq<ItemView>,
    /// The number and body of the post whose details are awaited.
    pub pending: Option<(nat, Seq<char>)>,
    /// Why the walk failed, if it did.
    pub failure: Option<WalkError>,
    /// The sequence numbers of all posts read, in the order in which the feed
    /// showed them.
    pub observed: Seq<nat>,
}

/// The lowest of the numbers `observed`, if there is any.
pub open spec fn lowest(observed: Seq<nat>) -> Option<nat>
    decreases observed.len(),
{
    if observed.len() == 0 {
        None
    } else {
        match lowest(observed.drop_last()) {
            None => Some(observed.last()),
            Some(m) => if observed.last() < m {
                Some(observed.last())
            } else {
                Some(m)
            },
        }
    }
}

/// Whether a post numbered `sequence` continues the newest-first run of the
/// posts read before it: it lies below every one of them.
pub open spec fn continues_run(earliest_seen: Option<nat>, sequence: nat) -> bool {
    match earliest_seen {
        None => true,
        Some(m) => sequence < m,
    }
}

/// The sequence numbers that a walk collects out of the numbers it reads: those
/// at or above the boundary that lie below every number read before them.
pub open spec fn accepted(observed: Seq<nat>, boundary: nat) -> Seq<nat>
    decreases observed.len(),
{
    if observed.len() == 0 {
        Seq::empty()
    } else {
        let before = observed.drop_last();
        let x = observed.last();
        if x >= boundary && continues_run(lowest(before), x) {
            accepted(before, boundary).push(x)
        } else {
            accepted(before, boundary)
        }
    }
}

/// The sequence numbers of `items`, in order.
pub open spec fn keys(items: Seq<ItemView>) -> Seq<nat> {
    Seq::new(items.len(), |i: int| items[i].sequence)
}

/// Whether the sequence numbers of `items` fall strictly from each entry to the next.
pub open spec fn newest_first(items: Seq<ItemView>) -> bool {
    forall|i: int, j: int| 0 <= i < j < items.len() ==> items[i].sequence > items[j].sequence
}

/// Whether the walk still looks for older posts: nothing read yet lies at or
/// below the boundary.
pub open spec fn wants_more(s: WalkState) -> bool {
    match s.earliest_seen {
        None => true,
        Some(m) => m > s.boundary,
    }
}

/// The state in which a walk starts. Its first action is `OpenSession`.
pub open spec fn walk_start(boundary: nat, root: Seq<char>) -> WalkState {
    WalkState {
        boundary,
        root,
        phase: WalkPhase::Opening,
        earliest_seen: None,
        num_seen: 0,
        count: 0,
        cursor: 0,
        items: Seq::empty(),
        pending: None,
        failure: None,
        observed: Seq::empty(),
    }
}

/// The walk releases the session to end.
pub open spec fn close(s: WalkState) -> (WalkState, WalkAction) {
    (WalkState { phase: WalkPhase::Closing, pending: None, ..s }, WalkAction::CloseSession)
}

/// The walk fails: it keeps the reason and releases the session.
pub open spec fn abort(s: WalkState, e: WalkError) -> (WalkState, WalkAction) {
    close(WalkState { failure: Some(e), ..s })
}

/// The walk turns to the affordance at `cursor` of the `count` shown in this
/// round. Past the last one the round is over: all of them count as seen, and
/// the walk asks for more unless it has reached the boundary.
pub open spec fn turn_to(s: WalkState, count: usize, cursor: usize) -> (WalkState, WalkAction) {
    if cursor < count {
        (WalkState { phase: WalkPhase::Probing, count, cursor, ..s }, WalkAction::Probe(cursor))
    } else if wants_more(s) {
        (
            WalkState { phase: WalkPhase::Counting, count, cursor, num_seen: count, ..s },
            WalkAction::CountAffordances,
        )
    } else {
        close(WalkState { count, cursor, num_seen: count, ..s })
    }
}

/// The walk has read the text of the post under the cursor.
pub open spec fn read_post(s: WalkState, raw: Seq<char>) -> (WalkState, WalkAction) {
    if !is_post_text(raw) {
        abort(s, WalkError::Shape(ShapeError::PostText))
    } else {
        let sequence = post_sequence(raw);
        let seen = WalkState {
            earliest_seen: if continues_run(s.earliest_seen, sequence) {
                Some(sequence)
            } else {
                s.earliest_seen
            },
            observed: s.observed.push(sequence),
            ..s
        };
        if !continues_run(s.earliest_seen, sequence) {
            (WalkState { phase: WalkPhase::Dismissing, ..seen }, WalkAction::Dismiss)
        } else if sequence < s.boundary {
            close(seen)
        } else {
            (
                WalkState {
                    phase: WalkPhase::Detailing,
                    pending: Some((sequence, post_body(raw))),
                    ..seen
                },
                WalkAction::ReadDetails,
            )
        }
    }
}

/// The walk has read the details of the post under the cursor.
pub open spec fn take_details(
    s: WalkState,
    timestamp: Option<Seq<char>>,
    href: Option<Seq<char>>,
) -> (WalkState, WalkAction) {
    match s.pending {
        Some((sequence, body)) => match entry_of(sequence, body, timestamp, href, s.root) {
            Ok(item) => (
                WalkState {
                    phase: WalkPhase::Dismissing,
                    pending: None,
                    items: s.items.push(item),
                    ..s
                },
                WalkAction::Dismiss,
            ),
            Err(e) => abort(s, WalkError::Shape(e)),
        },
        None => abort(s, WalkError::Surface),
    }
}

/// The state after `event` and the action that the walk answers with. An event
/// that the phase does not wait for fails the walk.
pub open spec fn walk_next(s: WalkState, event: WalkEventView) -> (WalkState, WalkAction) {
    match s.phase {
        WalkPhase::Opening => match event {
            WalkEventView::Done => turn_to(s, 0, 0),
            _ => abort(s, WalkError::Surface),
        },
        WalkPhase::Counting => match event {
            WalkEventView::Affordances(n) => if n == s.num_seen {
                close(s)
            } else {
                turn_to(s, n, s.num_seen)
            },
            _ => abort(s, WalkError::Surface),
        },
        WalkPhase::Probing => match event {
            WalkEventView::Interactable(true) => (
                WalkState { phase: WalkPhase::Reading, ..s },
                WalkAction::Open(s.cursor),
            ),
            WalkEventView::Interactable(false) => turn_to(s, s.count, (s.cursor + 1) as usize),
            _ => abort(s, WalkError::Surface),
        },
        WalkPhase::Reading => match event {
            WalkEventView::PostText(raw) => read_post(s, raw),
            _ => abort(s, WalkError::Surface),
        },
        WalkPhase::Detailing => match event {
            WalkEventView::Details { timestamp, href } => take_details(s, timestamp, href),
            _ => abort(s, WalkError::Surface),
        },
        WalkPhase::Dismissing => match event {
            WalkEventView::Done => turn_to(s, s.count, (s.cursor + 1) as usize),
            _ => abort(s, WalkError::Surface),
        },
        WalkPhase::Closing => match event {
            WalkEventView::Done => (WalkState { phase: WalkPhase::Done, ..s }, WalkAction::Finished),
            _ => (
                WalkState {
                    phase: WalkPhase::Done,
                    failure: if s.failure is Some {
                        s.failure
                    } else {
                        Some(WalkError::Surface)
                    },
                    ..s
                },
                WalkAction::Finished,
            ),
        },
        WalkPhase::Done => (s, WalkAction::Finished),
    }
}

/// What holds of every state that a walk reaches.
pub open spec fn walk_inv(s: WalkState) -> bool {
    &&& newest_first(s.items)
    &&& forall|i: int|
        0 <= i < s.items.len() ==> s.boundary <= (#[trigger] s.items[i]).sequence <= u32::MAX
    &&& s.earliest_seen == lowest(s.observed)
    &&& match s.pending {
        Some((sequence, body)) => {
            &&& s.phase == WalkPhase::Detailing
            &&& s.earliest_seen == Some(sequence)
            &&& sequence >= s.boundary
            &&& sequence <= u32::MAX
        },
        None => s.phase != WalkPhase::Detailing,
    }
    &&& s.failure is None ==> accepted(s.observed, s.boundary) == match s.pending {
        Some((sequence, body)) => keys(s.items).push(sequence),
        None => keys(s.items),
    }
    &&& s.items.len() > 0 ==> s.earliest_seen is Some && s.items.last().sequence
        >= s.earliest_seen.unwrap()
    &&& s.pending is Some ==> s.items.len() > 0 ==> s.items.last().sequence
        > s.earliest_seen.unwrap()
    &&& (s.phase == WalkPhase::Probing || s.phase == WalkPhase::Reading || s.phase
        == WalkPhase::Detailing || s.phase == WalkPhase::Dismissing) ==> s.cursor < s.count
    &&& s.phase == WalkPhase::Counting ==> s.num_seen == s.count
    &&& s.phase != WalkPhase::Closing && s.phase != WalkPhase::Done ==> (s.earliest_seen matches Some(
        m,
    ) ==> m >= s.boundary)
    &&& s.failure is Some ==> s.phase == WalkPhase::Closing || s.phase == WalkPhase::Done
    &&& s.failure != Some(WalkError::Unfinished)
}

/// A walk starts in a state that meets the invariant.
pub proof fn lemma_start_inv(boundary: nat, root: Seq<char>)
    ensures
        walk_inv(walk_start(boundary, root)),
{
    assert(keys(Seq::<ItemView>::empty()) =~= Seq::<nat>::empty());
}

/// Every step of a walk keeps the invariant.
pub proof fn lemma_next_inv(s: WalkState, event: WalkEventView)
    requires
        walk_inv(s),
    ensures
        walk_inv(walk_next(s, event).0),
{
    let t = walk_next(s, event).0;
    match (s.phase, event) {
        (WalkPhase::Reading, WalkEventView::PostText(raw)) => {
            if is_post_text(raw) {
                let sequence = post_sequence(raw);
                let observed = s.observed.push(sequence);
                assert(observed.drop_last() =~= s.observed);
                assert(observed.last() == sequence);
                if continues_run(s.earliest_seen, sequence) && sequence >= s.boundary {
                    assert(keys(s.items).push(sequence) =~= accepted(observed, s.boundary));
                }
            }
        },
        (WalkPhase::Detailing, WalkEventView::Details { timestamp, href }) => {
            let (sequence, body) = s.pending.unwrap();
            match entry_of(sequence, body, timestamp, href, s.root) {
                Ok(item) => {
                    assert(item.sequence == sequence);
                    assert(keys(s.items.push(item)) =~= keys(s.items).push(sequence));
                    assert forall|i: int, j: int| 0 <= i < j < t.items.len() implies t.items[i].sequence
                        > t.items[j].sequence by {
                        if j == s.items.len() {
                            assert(s.items[i].sequence >= s.items.last().sequence);
                        }
                    }
                },
                Err(e) => {},
            }
        },
        _ => {},
    }
}

/// The state of a walk that started in `s` after the feed has given `events`,
/// one after the other.
pub open spec fn walk_run(s: WalkState, events: Seq<WalkEventView>) -> WalkState
    decreases events.len(),
{
    if events.len() == 0 {
        s
    } else {
        walk_next(walk_run(s, events.drop_last()), events.last()).0
    }
}

/// Whatever the feed shows, a walk stays within the invariant.
pub proof fn law_walk_stays_valid(boundary: nat, root: Seq<char>, events: Seq<WalkEventView>)
    ensures
        walk_inv(walk_run(walk_start(boundary, root), events)),
    decreases events.len(),
{
    if events.len() == 0 {
        lemma_start_inv(boundary, root);
    } else {
        law_walk_stays_valid(boundary, root, events.drop_last());
        lemma_next_inv(walk_run(walk_start(boundary, root), events.drop_last()), events.last());
    }
}

/// The numbers that a walk collects fall strictly, lie at or above the boundary
/// and are among the numbers read.
pub proof fn law_accepted_numbers(observed: Seq<nat>, boundary: nat)
    ensures
        forall|i: int, j: int|
            0 <= i < j < accepted(observed, boundary).len() ==> accepted(observed, boundary)[i]
                > accepted(observed, boundary)[j],
        forall|i: int|
            0 <= i < accepted(observed, boundary).len() ==> #[trigger] accepted(
                observed,
                boundary,
            )[i] >= boundary && observed.contains(accepted(observed, boundary)[i]),
        accepted(observed, boundary).len() > 0 ==> lowest(observed) is Some && accepted(
            observed,
            boundary,
        ).last() >= lowest(observed).unwrap(),
    decreases observed.len(),
{
    if observed.len() > 0 {
        let before = observed.drop_last();
        let x = observed.last();
        law_accepted_numbers(before, boundary);
        let a = accepted(before, boundary);
        assert(observed[observed.len() - 1] == x);
        assert forall|i: int| 0 <= i < a.len() implies observed.contains(a[i]) by {
            assert(before.contains(a[i]));
            let k = choose|k: int| 0 <= k < before.len() && before[k] == a[i];
            assert(observed[k] == a[i]);
        }
    }
}

/// Every number that was read is at or above the lowest.
pub proof fn lemma_lowest(observed: Seq<nat>, k: int)
    requires
        0 <= k < observed.len(),
    ensures
        lowest(observed) is Some,
        lowest(observed).unwrap() <= observed[k],
    decreases observed.len(),
{
    if k < observed.len() - 1 {
        lemma_lowest(observed.drop_last(), k);
    } else if observed.len() > 1 {
        lemma_lowest(observed.drop_last(), 0);
    }
}

/// Where the feed shows its posts in their natural order, each numbered below
/// the one before, a walk leaves out none of those at or above the boundary.
pub proof fn lemma_accepted_natural_order(observed: Seq<nat>, boundary: nat)
    requires
        forall|i: int, j: int| 0 <= i < j < observed.len() ==> observed[i] > observed[j],
    ensures
        accepted(observed, boundary) == observed.filter(|x: nat| x >= boundary),
    decreases observed.len(),
{
    reveal(Seq::filter);
    if observed.len() > 0 {
        let before = observed.drop_last();
        lemma_accepted_natural_order(before, boundary);
        if before.len() > 0 {
            lemma_lowest(before, before.len() - 1);
            let m = lowest(before).unwrap();
            lemma_lowest_is_read(before);
            let k = choose|k: int| 0 <= k < before.len() && before[k] == m;
            assert(observed[k] > observed.last());
        }
    }
}

/// The lowest number read is one of the numbers read.
pub proof fn lemma_lowest_is_read(observed: Seq<nat>)
    requires
        observed.len() > 0,
    ensures
        exists|k: int| 0 <= k < observed.len() && observed[k] == lowest(observed).unwrap(),
    decreases observed.len(),
{
    let before = observed.drop_last();
    if before.len() > 0 {
        lemma_lowest_is_read(before);
        let k = choose|k: int| 0 <= k < before.len() && before[k] == lowest(before).unwrap();
        assert(observed[k] == before[k]);
        assert(observed[observed.len() - 1] == observed.last());
    } else {
        assert(observed[0] == observed.last());
    }
}

/// Boundary correctness: every entry that a walk holds is numbered at or above
/// the boundary, so no post that was read below the boundary is among them.
pub proof fn law_boundary(s: WalkState)
    requires
        walk_inv(s),
    ensures
        forall|i: int| 0 <= i < s.items.len() ==> (#[trigger] s.items[i]).sequence >= s.boundary,
        forall|k: int, i: int|
            0 <= k < s.observed.len() && s.observed[k] < s.boundary && 0 <= i < s.items.len()
                ==> (#[trigger] s.items[i]).sequence != #[trigger] s.observed[k],
{
}

/// Reading a post numbered below the boundary adds no entry and ends the walk.
pub proof fn law_boundary_short_circuit(s: WalkState, raw: Seq<char>)
    requires
        walk_inv(s),
        s.phase == WalkPhase::Reading,
        is_post_text(raw),
        post_sequence(raw) < s.boundary,
    ensures
        walk_next(s, WalkEventView::PostText(raw)).0.items == s.items,
        walk_next(s, WalkEventView::PostText(raw)).0.phase == WalkPhase::Closing,
        walk_next(s, WalkEventView::PostText(raw)).0.failure is None,
        walk_next(s, WalkEventView::PostText(raw)).1 == WalkAction::CloseSession,
{
}

/// Newest first: the entries that a walk holds are numbered strictly downwards,
/// so no number occurs twice.
pub proof fn law_newest_first(s: WalkState)
    requires
        walk_inv(s),
    ensures
        newest_first(s.items),
        forall|i: int, j: int|
            0 <= i < s.items.len() && 0 <= j < s.items.len() && i != j ==> (
            #[trigger] s.items[i]).sequence != (#[trigger] s.items[j]).sequence,
{
    assert forall|i: int, j: int|
        0 <= i < s.items.len() && 0 <= j < s.items.len() && i != j implies (
    #[trigger] s.items[i]).sequence != (#[trigger] s.items[j]).sequence by {
        if i < j {
            assert(s.items[i].sequence > s.items[j].sequence);
        } else {
            assert(s.items[j].sequence > s.items[i].sequence);
        }
    }
}

/// Walking again: what a walk that did not fail has collected is decided by the
/// boundary and by the posts that the feed showed, whatever the rounds in which
/// it showed them. Two such walks with the same boundary over the same posts
/// hold entries with the same numbers in the same order.
pub proof fn law_rewalk(s1: WalkState, s2: WalkState)
    requires
        walk_inv(s1),
        walk_inv(s2),
        s1.failure is None,
        s2.failure is None,
        s1.pending is None,
        s2.pending is None,
        s1.boundary == s2.boundary,
        s1.observed == s2.observed,
    ensures
        keys(s1.items) == keys(s2.items),
        keys(s1.items) == accepted(s1.observed, s1.boundary),
{
}

/// Nothing left out: where the posts were shown in their natural order, a walk
/// that did not fail holds exactly the posts read at or above the boundary.
pub proof fn law_no_omission(s: WalkState)
    requires
        walk_inv(s),
        s.failure is None,
        s.pending is None,
        forall|i: int, j: int| 0 <= i < j < s.observed.len() ==> s.observed[i] > s.observed[j],
    ensures
        keys(s.items) == s.observed.filter(|x: nat| x >= s.boundary),
{
    lemma_accepted_natural_order(s.observed, s.boundary);
}

/// Stall: when the feed shows as many affordances as the query before found, the
/// walk releases the session without an error and keeps what it has collected;
/// once the session is released it is over.
pub proof fn law_stall_ends_walk(s: WalkState, n: usize)
    requires
        walk_inv(s),
        s.phase == WalkPhase::Counting,
        n == s.count,
    ensures
        walk_next(s, WalkEventView::Affordances(n)) == (
            WalkState { phase: WalkPhase::Closing, ..s },
            WalkAction::CloseSession,
        ),
        s.failure is None,
        walk_next(walk_next(s, WalkEventView::Affordances(n)).0, WalkEventView::Done) == (
            WalkState { phase: WalkPhase::Done, ..s },
            WalkAction::Finished,
        ),
{
}

/// Release: a walk is over only after it has asked for the session to be
/// released, and a failure at any earlier point makes it ask for that at once.
pub proof fn law_session_released(s: WalkState, event: WalkEventView)
    requires
        walk_inv(s),
    ensures
        walk_next(s, event).0.phase == WalkPhase::Done ==> s.phase == WalkPhase::Closing || s.phase
            == WalkPhase::Done,
        walk_next(s, event).0.phase == WalkPhase::Closing ==> walk_next(s, event).1
            == WalkAction::CloseSession,
        walk_next(s, event).1 == WalkAction::Finished <==> walk_next(s, event).0.phase
            == WalkPhase::Done,
        event is Failed && s.phase != WalkPhase::Closing && s.phase != WalkPhase::Done ==> walk_next(
            s,
            event,
        ) == abort(s, WalkError::Surface),
{
}

/// The entries `items` as mathematical values, in order.
pub open spec fn views(items: Seq<Item>) -> Seq<ItemView> {
    Seq::new(items.len(), |i: int| items[i]@)
}

/// A walk in progress.
pub struct Walker {
    boundary: u32,
    root: String,
    phase: WalkPhase,
    earliest_seen: Option<u32>,
    num_seen: usize,
    count: usize,
    cursor: usize,
    items: Vec<Item>,
    pending: Option<PostHead>,
    failure: Option<WalkError>,
    observed: Ghost<Seq<nat>>,
}

impl View for Walker {
    type V = WalkState;

    closed spec fn view(&self) -> WalkState {
        WalkState {
            boundary: self.boundary as nat,
            root: self.root@,
            phase: self.phase,
            earliest_seen: match self.earliest_seen {
                Some(m) => Some(m as nat),
                None => None,
            },
            num_seen: self.num_seen,
            count: self.count,
            cursor: self.cursor,
            items: views(self.items@),
            pending: match self.pending {
                Some(head) => Some((head.sequence as nat, head.body@)),
                None => None,
            },
            failure: self.failure,
            observed: self.observed@,
        }
    }
}

impl Walker {
    /// Every walker is in a state that a walk can reach.
    #[verifier::type_invariant]
    pub closed spec fn wf(&self) -> bool {
        walk_inv(self@)
    }

    /// Starts a walk that collects the entries numbered `boundary` or above.
    /// Links are completed with `root`. The first thing to do is to open the
    /// session.
    pub fn begin(boundary: u32, root: String) -> (r: (Walker, WalkAction))
        ensures
            r.0@ == walk_start(boundary as nat, root@),
            r.1 == WalkAction::OpenSession,
    {
        let items: Vec<Item> = Vec::new();
        proof {
            lemma_start_inv(boundary as nat, root@);
            assert(views(items@) =~= Seq::<ItemView>::empty());
        }
        let walker = Walker {
            boundary,
            root,
            phase: WalkPhase::Opening,
            earliest_seen: None,
            num_seen: 0,
            count: 0,
            cursor: 0,
            items,
            pending: None,
            failure: None,
            observed: Ghost(Seq::empty()),
        };
        (walker, WalkAction::OpenSession)
    }

    /// What the walker is waiting for.
    pub fn phase(&self) -> (phase: WalkPhase)
        ensures
            phase == self@.phase,
    {
        self.phase
    }

    /// The lowest sequence number that the walk collects.
    pub fn boundary(&self) -> (boundary: u32)
        ensures
            boundary == self@.boundary,
    {
        self.boundary
    }

    fn close(self) -> (r: (Walker, WalkAction))
        requires
            self@.pending is None,
        ensures
            (r.0@, r.1) == close(self@),
    {
        proof {
            use_type_invariant(&self);
        }
        (Walker { phase: WalkPhase::Closing, pending: None, ..self }, WalkAction::CloseSession)
    }

    fn abort(self, e: WalkError) -> (r: (Walker, WalkAction))
        requires
            e != WalkError::Unfinished,
        ensures
            (r.0@, r.1) == abort(self@, e),
    {
        proof {
            use_type_invariant(&self);
        }
        (
            Walker { phase: WalkPhase::Closing, pending: None, failure: Some(e), ..self },
            WalkAction::CloseSession,
        )
    }

    fn turn_to(self, count: usize, cursor: usize) -> (r: (Walker, WalkAction))
        requires
            self@.pending is None,
            self@.failure is None,
            self@.phase != WalkPhase::Closing,
            self@.phase != WalkPhase::Done,
        ensures
            (r.0@, r.1) == turn_to(self@, count, cursor),
    {
        proof {
            use_type_invariant(&self);
        }
        if cursor < count {
            (Walker { phase: WalkPhase::Probing, count, cursor, ..self }, WalkAction::Probe(cursor))
        } else {
            let more = match self.earliest_seen {
                None => true,
                Some(m) => m > self.boundary,
            };
            if more {
                (
                    Walker { phase: WalkPhase::Counting, count, cursor, num_seen: count, ..self },
                    WalkAction::CountAffordances,
                )
            } else {
                (
                    Walker {
                        phase: WalkPhase::Closing,
                        pending: None,
                        count,
                        cursor,
                        num_seen: count,
                        ..self
                    },
                    WalkAction::CloseSession,
                )
            }
        }
    }

    fn read_post(self, raw: String) -> (r: (Walker, WalkAction))
        requires
            self@.phase == WalkPhase::Reading,
        ensures
            (r.0@, r.1) == read_post(self@, raw@),
    {
        proof {
            use_type_invariant(&self);
            lemma_next_inv(self@, WalkEventView::PostText(raw@));
        }
        match parse_post_text(raw.as_str()) {
            Err(_) => self.abort(WalkError::Shape(ShapeError::PostText)),
            Ok(head) => {
                let sequence = head.sequence;
                let continues = match self.earliest_seen {
                    None => true,
                    Some(m) => sequence < m,
                };
                let ghost observed = self.observed@.push(sequence as nat);
                if !continues {
                    (
                        Walker { phase: WalkPhase::Dismissing, observed: Ghost(observed), ..self },
                        WalkAction::Dismiss,
                    )
                } else if sequence < self.boundary {
                    (
                        Walker {
                            phase: WalkPhase::Closing,
                            pending: None,
                            earliest_seen: Some(sequence),
                            observed: Ghost(observed),
                            ..self
                        },
                        WalkAction::CloseSession,
                    )
                } else {
                    (
                        Walker {
                            phase: WalkPhase::Detailing,
                            pending: Some(head),
                            earliest_seen: Some(sequence),
                            observed: Ghost(observed),
                            ..self
                        },
                        WalkAction::ReadDetails,
                    )
                }
            },
        }
    }

    fn take_details(self, timestamp: Option<String>, href: Option<String>) -> (r: (
        Walker,
        WalkAction,
    ))
        requires
            self@.phase == WalkPhase::Detailing,
        ensures
            (r.0@, r.1) == take_details(self@, shown(timestamp), shown(href)),
    {
        proof {
            use_type_invariant(&self);
            lemma_next_inv(
                self@,
                WalkEventView::Details { timestamp: shown(timestamp), href: shown(href) },
            );
        }
        let timestamp_text: Option<&str> = match &timestamp {
            Some(text) => Some(text.as_str()),
            None => None,
        };
        let href_text: Option<&str> = match &href {
            Some(text) => Some(text.as_str()),
            None => None,
        };
        match self.pending {
            Some(head) => match assemble(head, timestamp_text, href_text, self.root.as_str()) {
                Ok(item) => {
                    proof {
                        assert(views(self.items@.push(item)) =~= views(self.items@).push(item@));
                    }
                    let mut items = self.items;
                    items.push(item);
                    (
                        Walker { phase: WalkPhase::Dismissing, items, pending: None, ..self },
                        WalkAction::Dismiss,
                    )
                },
                Err(e) => (
                    Walker {
                        phase: WalkPhase::Closing,
                        pending: None,
                        failure: Some(WalkError::Shape(e)),
                        ..self
                    },
                    WalkAction::CloseSession,
                ),
            },
            None => self.abort(WalkError::Surface),
        }
    }

    /// Takes what the feed showed and answers with what to do next.
    pub fn step(self, event: WalkEvent) -> (r: (Walker, WalkAction))
        ensures
            (r.0@, r.1) == walk_next(self@, event@),
            walk_inv(self@),
            walk_inv(r.0@),
    {
        proof {
            use_type_invariant(&self);
            lemma_next_inv(self@, event@);
        }
        match self.phase {
            WalkPhase::Opening => match event {
                WalkEvent::Done => self.turn_to(0, 0),
                _ => self.abort(WalkError::Surface),
            },
            WalkPhase::Counting => match event {
                WalkEvent::Affordances(n) => {
                    if n == self.num_seen {
                        self.close()
                    } else {
                        let cursor = self.num_seen;
                        self.turn_to(n, cursor)
                    }
                },
                _ => self.abort(WalkError::Surface),
            },
            WalkPhase::Probing => match event {
                WalkEvent::Interactable(true) => {
                    let cursor = self.cursor;
                    (Walker { phase: WalkPhase::Reading, ..self }, WalkAction::Open(cursor))
                },
                WalkEvent::Interactable(false) => {
                    let count = self.count;
                    let cursor = self.cursor + 1;
                    self.turn_to(count, cursor)
                },
                _ => self.abort(WalkError::Surface),
            },
            WalkPhase::Reading => match event {
                WalkEvent::PostText(raw) => self.read_post(raw),
                _ => self.abort(WalkError::Surface),
            },
            WalkPhase::Detailing => match event {
                WalkEvent::Details { timestamp, href } => self.take_details(timestamp, href),
                _ => self.abort(WalkError::Surface),
            },
            WalkPhase::Dismissing => match event {
                WalkEvent::Done => {
                    let count = self.count;
                    let cursor = self.cursor + 1;
                    self.turn_to(count, cursor)
                },
                _ => self.abort(WalkError::Surface),
            },
            WalkPhase::Closing => match event {
                WalkEvent::Done => (Walker { phase: WalkPhase::Done, ..self }, WalkAction::Finished),
                _ => {
                    let failure = match self.failure {
                        Some(e) => Some(e),
                        None => Some(WalkError::Surface),
                    };
                    (Walker { phase: WalkPhase::Done, failure, ..self }, WalkAction::Finished)
                },
            },
            WalkPhase::Done => (self, WalkAction::Finished),
        }
    }

    /// The outcome of the walk: the entries collected, newest first, or why
    /// there are none. A walk that failed hands out no entries, and neither does
    /// one that has not finished.
    pub fn outcome(self) -> (r: Result<Vec<Item>, WalkError>)
        ensures
            walk_inv(self@),
            match r {
                Ok(items) => self@.phase == WalkPhase::Done && self@.failure is None && views(
                    items@,
                ) == self@.items,
                Err(e) => if self@.phase == WalkPhase::Done {
                    self@.failure == Some(e)
                } else {
                    e == WalkError::Unfinished
                },
            },
    {
        proof {
            use_type_invariant(&self);
        }
        match self.phase {
            WalkPhase::Done => match self.failure {
                Some(e) => Err(e),
                None => Ok(self.items),
            },
            _ => Err(WalkError::Unfinished),
        }
    }
}

} // verus!
