//! The two small stores that a cycle reads and writes: the checkpoint and the
//! registry of subscribed destinations.

use vstd::prelude::*;
use vstd::string::StringExecFns;

verus! {

/// Why a store could not answer.
#[derive(Clone, Copy, Debug, PartialEq, Eq, Structural)]
pub enum StoreError {
    /// The checkpoint was never seeded.
    Uninitialized,
}

/// The last sequence number that was fully processed: a single record, which
/// has to be seeded once before it can be read.
pub struct CheckpointStore {
    record: Option<u32>,
}

impl View for CheckpointStore {
    type V = Option<nat>;

    closed spec fn view(&self) -> Option<nat> {
        match self.record {
            Some(n) => Some(n as nat),
            None => None,
        }
    }
}

impl CheckpointStore {
    /// A store that holds no record yet.
    pub fn unseeded() -> (store: CheckpointStore)
        ensures
            store@ is None,
    {
        CheckpointStore { record: None }
    }

    /// A store whose record is `last_sequence`.
    pub fn seeded(last_sequence: u32) -> (store: CheckpointStore)
        ensures
            store@ == Some(last_sequence as nat),
    {
        CheckpointStore { record: Some(last_sequence) }
    }

    /// The record, where the store was seeded.
    pub fn get_checkpoint(&self) -> (r: Result<u32, StoreError>)
        ensures
            match r {
                Ok(n) => self@ == Some(n as nat),
                Err(e) => self@ is None && e == StoreError::Uninitialized,
            },
    {
        match self.record {
            Some(n) => Ok(n),
            None => Err(StoreError::Uninitialized),
        }
    }

    /// Overwrites the record, whatever it was.
    pub fn set_checkpoint(&mut self, last_sequence: u32)
        ensures
            final(self)@ == Some(last_sequence as nat),
    {
        self.record = Some(last_sequence);
    }
}

/// The strings `list` as mathematical values, in order.
pub open spec fn texts(list: Seq<String>) -> Seq<Seq<char>> {
    Seq::new(list.len(), |i: int| list[i]@)
}

/// Whether no destination occurs twice in `list`.
pub open spec fn distinct(list: Seq<Seq<char>>) -> bool {
    forall|i: int, j: int| 0 <= i < j < list.len() ==> list[i] != list[j]
}

/// `list` with `destination` in it: unchanged where it is there already, else
/// with it at the end.
pub open spec fn with_destination(list: Seq<Seq<char>>, destination: Seq<char>) -> Seq<Seq<char>> {
    if list.contains(destination) {
        list
    } else {
        list.push(destination)
    }
}

/// `list` without `destination`: unchanged where it is not there.
pub open spec fn without_destination(list: Seq<Seq<char>>, destination: Seq<char>) -> Seq<
    Seq<char>,
> {
    if list.contains(destination) {
        list.remove(list.index_of(destination))
    } else {
        list
    }
}

/// The destinations of `list`, each once, in the order in which they first occur.
pub open spec fn each_once(list: Seq<Seq<char>>) -> Seq<Seq<char>>
    decreases list.len(),
{
    if list.len() == 0 {
        Seq::empty()
    } else {
        with_destination(each_once(list.drop_last()), list.last())
    }
}

/// Adding keeps a list free of repetitions and makes the destination a member.
pub proof fn lemma_with_destination(list: Seq<Seq<char>>, destination: Seq<char>)
    requires
        distinct(list),
    ensures
        distinct(with_destination(list, destination)),
        with_destination(list, destination).contains(destination),
        forall|other: Seq<char>|
            with_destination(list, destination).contains(other) <==> (list.contains(other) || other
                == destination),
{
    let r = with_destination(list, destination);
    if !list.contains(destination) {
        assert(r[list.len() as int] == destination);
        assert forall|other: Seq<char>| r.contains(other) implies (list.contains(other) || other
            == destination) by {
            let k = choose|k: int| 0 <= k < r.len() && r[k] == other;
            if k < list.len() {
                assert(list[k] == other);
            }
        }
        assert forall|other: Seq<char>| list.contains(other) implies r.contains(other) by {
            let k = choose|k: int| 0 <= k < list.len() && list[k] == other;
            assert(r[k] == other);
        }
    }
}

/// Removing keeps a list free of repetitions and leaves the destination out.
pub proof fn lemma_without_destination(list: Seq<Seq<char>>, destination: Seq<char>)
    requires
        distinct(list),
    ensures
        distinct(without_destination(list, destination)),
        !without_destination(list, destination).contains(destination),
        forall|other: Seq<char>|
            without_destination(list, destination).contains(other) <==> (list.contains(other)
                && other != destination),
{
    let r = without_destination(list, destination);
    if list.contains(destination) {
        let at = list.index_of(destination);
        assert forall|other: Seq<char>| r.contains(other) implies (list.contains(other) && other
            != destination) by {
            let k = choose|k: int| 0 <= k < r.len() && r[k] == other;
            if k < at {
                assert(list[k] == other);
            } else {
                assert(list[k + 1] == other);
            }
        }
        assert forall|other: Seq<char>| list.contains(other) && other != destination implies r.contains(
            other,
        ) by {
            let k = choose|k: int| 0 <= k < list.len() && list[k] == other;
            if k < at {
                assert(r[k] == other);
            } else {
                assert(r[k - 1] == other);
            }
        }
    }
}

/// `each_once` repeats nothing and keeps exactly the destinations of the list.
pub proof fn lemma_each_once(list: Seq<Seq<char>>)
    ensures
        distinct(each_once(list)),
        forall|other: Seq<char>| each_once(list).contains(other) <==> list.contains(other),
    decreases list.len(),
{
    if list.len() > 0 {
        let before = list.drop_last();
        lemma_each_once(before);
        lemma_with_destination(each_once(before), list.last());
        assert forall|other: Seq<char>| list.contains(other) implies (before.contains(other)
            || other == list.last()) by {
            let k = choose|k: int| 0 <= k < list.len() && list[k] == other;
            if k < before.len() {
                assert(before[k] == other);
            }
        }
        assert forall|other: Seq<char>| (before.contains(other) || other
            == list.last()) implies list.contains(other) by {
            if before.contains(other) {
                let k = choose|k: int| 0 <= k < before.len() && before[k] == other;
                assert(list[k] == other);
            } else {
                assert(list[list.len() - 1] == other);
            }
        }
    }
}

/// The destinations that receive new entries: a set, kept in the order in which
/// its members were added.
pub struct SubscriptionRegistry {
    destinations: Vec<String>,
}

impl View for SubscriptionRegistry {
    type V = Seq<Seq<char>>;

    closed spec fn view(&self) -> Seq<Seq<char>> {
        texts(self.destinations@)
    }
}

impl SubscriptionRegistry {
    /// No destination is registered twice.
    #[verifier::type_invariant]
    pub closed spec fn wf(&self) -> bool {
        distinct(self@)
    }

    /// A registry without destinations.
    pub fn new() -> (registry: SubscriptionRegistry)
        ensures
            registry@ == Seq::<Seq<char>>::empty(),
    {
        let destinations: Vec<String> = Vec::new();
        assert(texts(destinations@) =~= Seq::<Seq<char>>::empty());
        SubscriptionRegistry { destinations }
    }

    /// The place of `destination` in the registry, if it is registered.
    fn position(&self, destination: &String) -> (r: Option<usize>)
        ensures
            distinct(self@),
            match r {
                Some(at) => at < self@.len() && self@[at as int] == destination@,
                None => !self@.contains(destination@),
            },
    {
        proof {
            use_type_invariant(self);
        }
        let mut i: usize = 0;
        while i < self.destinations.len()
            invariant
                i <= self.destinations.len(),
                distinct(self@),
                forall|j: int| 0 <= j < i ==> self@[j] != destination@,
            decreases self.destinations.len() - i,
        {
            if self.destinations[i] == *destination {
                return Some(i);
            }
            i += 1;
        }
        None
    }

    /// Whether `destination` is registered.
    pub fn contains(&self, destination: &str) -> (r: bool)
        ensures
            r == self@.contains(destination@),
    {
        let wanted = String::from_str(destination);
        match self.position(&wanted) {
            Some(at) => {
                assert(self@[at as int] == destination@);
                true
            },
            None => false,
        }
    }

    /// Registers `destination` unless it is registered already. Tells whether
    /// the registry changed.
    pub fn add_subscription(&mut self, destination: &str) -> (changed: bool)
        ensures
            final(self)@ == with_destination(old(self)@, destination@),
            changed == !old(self)@.contains(destination@),
            distinct(old(self)@),
            distinct(final(self)@),
    {
        let wanted = String::from_str(destination);
        match self.position(&wanted) {
            Some(at) => {
                assert(self@[at as int] == destination@);
                false
            },
            None => {
                proof {
                    lemma_with_destination(self@, destination@);
                    assert(texts(self.destinations@.push(wanted)) =~= texts(self.destinations@).push(
                        wanted@,
                    ));
                }
                let mut list: Vec<String> = Vec::new();
                core::mem::swap(&mut list, &mut self.destinations);
                list.push(wanted);
                self.destinations = list;
                true
            },
        }
    }

    /// Takes `destination` out of the registry if it is there. Tells whether the
    /// registry changed.
    pub fn remove_subscription(&mut self, destination: &str) -> (changed: bool)
        ensures
            final(self)@ == without_destination(old(self)@, destination@),
            changed == old(self)@.contains(destination@),
            distinct(old(self)@),
            distinct(final(self)@),
    {
        let wanted = String::from_str(destination);
        match self.position(&wanted) {
            Some(at) => {
                proof {
                    assert(self@[at as int] == destination@);
                    lemma_without_destination(self@, destination@);
                    let k = self@.index_of(destination@);
                    assert(k == at);
                    assert(texts(self.destinations@.remove(at as int)) =~= texts(
                        self.destinations@,
                    ).remove(at as int));
                }
                let mut list: Vec<String> = Vec::new();
                core::mem::swap(&mut list, &mut self.destinations);
                list.remove(at);
                self.destinations = list;
                true
            },
            None => false,
        }
    }

    /// How many destinations are registered.
    pub fn len(&self) -> (n: usize)
        ensures
            n == self@.len(),
    {
        self.destinations.len()
    }

    /// The registered destinations, each once.
    pub fn list_subscriptions(&self) -> (list: Vec<String>)
        ensures
            texts(list@) == self@,
            distinct(self@),
    {
        proof {
            use_type_invariant(self);
        }
        let mut list: Vec<String> = Vec::new();
        let mut i: usize = 0;
        while i < self.destinations.len()
            invariant
                i <= self.destinations.len(),
                list.len() == i,
                forall|j: int| 0 <= j < i ==> list@[j]@ == self.destinations@[j]@,
            decreases self.destinations.len() - i,
        {
            list.push(self.destinations[i].clone());
            i += 1;
        }
        assert(texts(list@) =~= texts(self.destinations@));
        list
    }

    /// The registry of the destinations that a listing of the store names, each
    /// once however often the listing names it.
    pub fn from_listing(listing: &Vec<String>) -> (registry: SubscriptionRegistry)
        ensures
            registry@ == each_once(texts(listing@)),
            distinct(registry@),
    {
        let mut registry = SubscriptionRegistry::new();
        let mut i: usize = 0;
        while i < listing.len()
            invariant
                i <= listing.len(),
                registry@ == each_once(texts(listing@).take(i as int)),
                distinct(registry@),
            decreases listing.len() - i,
        {
            proof {
                let next = texts(listing@).take(i + 1);
                assert(next.drop_last() =~= texts(listing@).take(i as int));
                assert(next.last() == listing@[i as int]@);
            }
            registry.add_subscription(listing[i].as_str());
            i += 1;
        }
        assert(texts(listing@).take(listing.len() as int) =~= texts(listing@));
        registry
    }
}

/// Registering a destination twice leaves the registry as registering it once
/// does.
pub proof fn law_add_twice(list: Seq<Seq<char>>, destination: Seq<char>)
    ensures
        with_destination(with_destination(list, destination), destination) == with_destination(
            list,
            destination,
        ),
{
    if !list.contains(destination) {
        assert(list.push(destination)[list.len() as int] == destination);
    }
}

/// Removing a destination that is not registered changes nothing.
pub proof fn law_remove_absent(list: Seq<Seq<char>>, destination: Seq<char>)
    requires
        !list.contains(destination),
    ensures
        without_destination(list, destination) == list,
{
}

/// Removing a destination twice leaves the registry as removing it once does.
pub proof fn law_remove_twice(list: Seq<Seq<char>>, destination: Seq<char>)
    requires
        distinct(list),
    ensures
        without_destination(without_destination(list, destination), destination)
            == without_destination(list, destination),
{
    lemma_without_destination(list, destination);
}

} // verus!
