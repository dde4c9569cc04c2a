//! The command surface: the two operations by which an operator subscribes the
//! destination a command came from, or takes it out, and the liveness reply.

use vstd::prelude::*;
use vstd::string::StringExecFns;
use crate::registry::{distinct, with_destination, without_destination, SubscriptionRegistry};
use crate::text::chars_of;

verus! {

/// What a command did and what the operator is told.
#[derive(Debug, PartialEq, Eq)]
pub struct CommandResult {
    /// Whether the registry changed, so that the store has to be written.
    pub changed: bool,
    /// The confirmation, which names the destination.
    pub reply: String,
}

/// The confirmation of a subscription of the destination called `name`.
pub open spec fn subscribed_reply(name: Seq<char>) -> Seq<char> {
    "new confessions will be posted in #"@ + name
}

/// The confirmation that the destination called `name` is subscribed no longer.
pub open spec fn unsubscribed_reply(name: Seq<char>) -> Seq<char> {
    "new confessions will not be posted in #"@ + name
}

/// Subscribes `destination`, which the operator knows as `name`. Subscribing a
/// destination that is subscribed already changes nothing and is confirmed all
/// the same.
pub fn subscribe(registry: &mut SubscriptionRegistry, destination: &str, name: &str) -> (r:
    CommandResult)
    ensures
        final(registry)@ == with_destination(old(registry)@, destination@),
        distinct(final(registry)@),
        r.changed == !old(registry)@.contains(destination@),
        r.reply@ == subscribed_reply(name@),
{
    let changed = registry.add_subscription(destination);
    let mut reply = String::from_str("new confessions will be posted in #");
    reply.append(name);
    CommandResult { changed, reply }
}

/// Takes `destination`, which the operator knows as `name`, out of the
/// registry. Where it is not subscribed nothing changes, and the reply is the
/// same.
pub fn unsubscribe(registry: &mut SubscriptionRegistry, destination: &str, name: &str) -> (r:
    CommandResult)
    ensures
        final(registry)@ == without_destination(old(registry)@, destination@),
        distinct(final(registry)@),
        r.changed == old(registry)@.contains(destination@),
        r.reply@ == unsubscribed_reply(name@),
{
    let changed = registry.remove_subscription(destination);
    let mut reply = String::from_str("new confessions will not be posted in #");
    reply.append(name);
    CommandResult { changed, reply }
}

/// The word that asks whether the process is alive.
pub open spec fn ping_word() -> Seq<char> {
    seq!['!', 'p', 'i', 'n', 'g']
}

/// Whether `s` begins with `prefix`.
pub open spec fn begins_with(s: Seq<char>, prefix: Seq<char>) -> bool {
    s.len() >= prefix.len() && s.take(prefix.len() as int) == prefix
}

/// Whether a message asks for the liveness reply: it begins with `!ping`.
pub fn is_ping(content: &str) -> (r: bool)
    ensures
        r == begins_with(content@, ping_word()),
{
    proof {
        reveal_strlit("!ping");
    }
    let chars = chars_of(content);
    let word = chars_of("!ping");
    if chars.len() < word.len() {
        return false;
    }
    let mut i: usize = 0;
    while i < word.len()
        invariant
            i <= word.len() <= chars.len(),
            chars@ == content@,
            word@ == ping_word(),
            forall|j: int| 0 <= j < i ==> chars@[j] == word@[j],
        decreases word.len() - i,
    {
        if chars[i] != word[i] {
            return false;
        }
        i += 1;
    }
    assert(chars@.take(word.len() as int) =~= word@);
    true
}

/// The liveness reply, for a message that asks for it.
pub fn ping_reply(content: &str) -> (r: Option<String>)
    ensures
        match r {
            Some(reply) => begins_with(content@, ping_word()) && reply@ == seq![
                'P',
                'o',
                'n',
                'g',
                '!',
            ],
            None => !begins_with(content@, ping_word()),
        },
{
    if is_ping(content) {
        proof {
            reveal_strlit("Pong!");
        }
        let reply = String::from_str("Pong!");
        Some(reply)
    } else {
        None
    }
}

} // verus!
