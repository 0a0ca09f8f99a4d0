//! One connection's part in the registry, from its start to its end.

use crate::command::{broadcast_text, join_text, parsed, CommandView};
use crate::name_map::{lemma_others, others};
use crate::registry::Registry;
use crate::router::{addressed, lemma_to_each, recipients, route, routed, Delivery};
use vstd::prelude::*;

verus! {

/// How many lines an outbound queue holds at most.
pub const OUTBOUND_QUEUE_CAPACITY: usize = 100;

/// Once a username is deregistered, no line is routed to it any more,
/// whoever sends whatever: what its queue held before still drains, and
/// nothing new comes.
pub proof fn lemma_nothing_reaches_the_deregistered(
    order: Seq<Seq<char>>,
    username: Seq<char>,
    sender: Seq<char>,
    line: Seq<char>,
)
    ensures
        !recipients(routed(others(order, username), sender, line)).contains(username),
{
    let left = others(order, username);
    let plan = routed(left, sender, line);
    lemma_others(order, username);
    lemma_others(left, sender);
    assert(!left.contains(username));
    if recipients(plan).contains(username) {
        let i = choose|i: int| 0 <= i < recipients(plan).len() && recipients(plan)[i] == username;
        match parsed(line) {
            CommandView::DirectMessage { target, body } => {
                assert(plan[i].0 == target);
            },
            CommandView::ChannelJoin { channel } => {
                lemma_to_each(others(left, sender), join_text(sender, channel));
                assert(others(left, sender).contains(username));
            },
            CommandView::Broadcast { text } => {
                lemma_to_each(others(left, sender), broadcast_text(sender, text));
                assert(others(left, sender).contains(username));
            },
            CommandView::Malformed => {},
        }
    }
}

/// A live connection: it is made by registering and ends by deregistering,
/// and only between the two can its lines be routed.
pub struct Session {
    username: String,
}

impl Session {
    /// The username under which the session is registered.
    pub closed spec fn name(&self) -> Seq<char> {
        self.username@
    }

    /// Starts a session: registers `handle`, the sending side of the
    /// session's fresh outbound queue, under `username`.
    pub fn open<H>(registry: &mut Registry<H>, username: String, handle: H) -> (session: Session)
        requires
            old(registry).wf(),
        ensures
            final(registry).wf(),
            session.name() == username@,
            final(registry)@ == old(registry)@.insert(username@, handle),
            final(registry).order() == if old(registry)@.contains_key(username@) {
                old(registry).order()
            } else {
                old(registry).order().push(username@)
            },
    {
        registry.register(username.clone(), handle);
        Session { username }
    }

    /// The session's username.
    pub fn username(&self) -> (username: &str)
        ensures
            username@ == self.name(),
    {
        self.username.as_str()
    }

    /// Routes one line that the session's reader took off the wire.
    pub fn on_line<'a, H>(&self, registry: &'a Registry<H>, line: &'a str) -> (deliveries: Vec<
        Delivery<'a, H>,
    >)
        requires
            registry.wf(),
        ensures
            addressed(deliveries@) == routed(registry.order(), self.name(), line@),
            forall|i: int|
                0 <= i < deliveries.len() ==> {
                    &&& registry@.contains_key((#[trigger] deliveries[i]).recipient@)
                    &&& *deliveries[i].handle == registry@[deliveries[i].recipient@]
                },
    {
        route(registry, self.username.as_str(), line)
    }

    /// Ends the session, for whatever reason its reader stopped: takes the
    /// entry of its username out of the registry. The registry then holds
    /// no handle of the session's queue any more.
    pub fn close<H>(self, registry: &mut Registry<H>)
        requires
            old(registry).wf(),
        ensures
            final(registry).wf(),
            final(registry)@ == old(registry)@.remove(self.name()),
            final(registry).order() == others(old(registry).order(), self.name()),
    {
        registry.deregister(self.username.as_str());
    }
}

} // verus!
